//! One test per workflow entry point, success and failure paths.

use hospital_discharge::errors::Error;
use hospital_discharge::types::FollowUpAppointment;
use hospital_discharge::workflow::HospitalDischargeContract;

fn create_test_hash(value: u8) -> [u8; 32] {
    let mut bytes = [0u8; 32];
    bytes[0] = value;
    bytes
}

#[test]
fn test_initiate_discharge_planning() {
    let mut contract = HospitalDischargeContract::new();

    let patient_id = create_test_hash(1);
    let admission_date = 1000u64;
    let expected_discharge_date = 2000u64;
    let discharge_destination = 0u32; // Home

    let result = contract
        .initiate_discharge_planning(
            true,
            patient_id,
            admission_date,
            expected_discharge_date,
            discharge_destination,
            0,
        )
        .unwrap();

    assert_eq!(result, 0);
}

#[test]
fn test_initiate_discharge_planning_invalid_date() {
    let mut contract = HospitalDischargeContract::new();

    let patient_id = create_test_hash(1);
    let admission_date = 2000u64;
    let expected_discharge_date = 1000u64; // Invalid: before admission
    let discharge_destination = 0u32;

    let result = contract.initiate_discharge_planning(
        true,
        patient_id,
        admission_date,
        expected_discharge_date,
        discharge_destination,
        0,
    );

    assert_eq!(result, Err(Error::InvalidDate));
}

#[test]
fn test_assess_discharge_readiness() {
    let mut contract = HospitalDischargeContract::new();
    let patient_id = create_test_hash(1);

    // First create a discharge plan
    let discharge_plan_id = contract
        .initiate_discharge_planning(true, patient_id, 1000u64, 2000u64, 0u32, 0)
        .unwrap();

    // Assess readiness
    let readiness = contract
        .assess_discharge_readiness(true, discharge_plan_id, 80u32, 75u32, 85u32, 70u32, 0)
        .unwrap();

    assert_eq!(readiness.discharge_plan_id, discharge_plan_id);
    assert_eq!(readiness.total_score, 77);
    assert_eq!(readiness.is_ready, true);
}

#[test]
fn test_assess_discharge_readiness_not_ready() {
    let mut contract = HospitalDischargeContract::new();
    let patient_id = create_test_hash(1);

    let discharge_plan_id = contract
        .initiate_discharge_planning(true, patient_id, 1000u64, 2000u64, 0u32, 0)
        .unwrap();

    let readiness = contract
        .assess_discharge_readiness(true, discharge_plan_id, 60u32, 50u32, 70u32, 65u32, 0)
        .unwrap();

    assert_eq!(readiness.total_score, 61);
    assert_eq!(readiness.is_ready, false);
}

#[test]
fn test_assess_discharge_readiness_invalid_score() {
    let mut contract = HospitalDischargeContract::new();
    let patient_id = create_test_hash(1);

    let discharge_plan_id = contract
        .initiate_discharge_planning(true, patient_id, 1000u64, 2000u64, 0u32, 0)
        .unwrap();

    let result = contract.assess_discharge_readiness(
        true,
        discharge_plan_id,
        101u32, // Invalid: > 100
        75u32,
        85u32,
        70u32,
        0,
    );

    assert_eq!(result, Err(Error::InvalidScore));
}

#[test]
fn test_assess_discharge_readiness_plan_not_found() {
    let mut contract = HospitalDischargeContract::new();

    let result = contract.assess_discharge_readiness(
        true,
        999u64, // Non-existent plan
        80u32,
        75u32,
        85u32,
        70u32,
        0,
    );

    assert_eq!(result, Err(Error::PlanNotFound));
}

#[test]
fn test_create_discharge_orders() {
    let mut contract = HospitalDischargeContract::new();
    let patient_id = create_test_hash(1);

    let discharge_plan_id = contract
        .initiate_discharge_planning(true, patient_id, 1000u64, 2000u64, 0u32, 0)
        .unwrap();

    let order_details_hash = create_test_hash(10);
    let result =
        contract.create_discharge_orders(true, discharge_plan_id, 0u32, order_details_hash, 0);

    assert!(result.is_ok());
}

#[test]
fn test_arrange_home_health() {
    let mut contract = HospitalDischargeContract::new();
    let patient_id = create_test_hash(1);

    let discharge_plan_id = contract
        .initiate_discharge_planning(true, patient_id, 1000u64, 2000u64, 0u32, 0)
        .unwrap();

    let agency_id = create_test_hash(20);
    let result = contract.arrange_home_health(
        true,
        discharge_plan_id,
        agency_id,
        0u32, // Nursing
        3u32, // 3 times per week
        4u32, // 4 weeks
        0,
    );

    assert!(result.is_ok());
}

#[test]
fn test_arrange_home_health_invalid_input() {
    let mut contract = HospitalDischargeContract::new();
    let patient_id = create_test_hash(1);

    let discharge_plan_id = contract
        .initiate_discharge_planning(true, patient_id, 1000u64, 2000u64, 0u32, 0)
        .unwrap();

    let agency_id = create_test_hash(20);
    let result = contract.arrange_home_health(
        true,
        discharge_plan_id,
        agency_id,
        0u32,
        0u32, // Invalid: 0 frequency
        4u32,
        0,
    );

    assert_eq!(result, Err(Error::InvalidInput));
}

#[test]
fn test_order_dme_for_discharge() {
    let mut contract = HospitalDischargeContract::new();
    let patient_id = create_test_hash(1);

    let discharge_plan_id = contract
        .initiate_discharge_planning(true, patient_id, 1000u64, 2000u64, 0u32, 0)
        .unwrap();

    let supplier_id = create_test_hash(30);

    let result = contract.order_dme_for_discharge(
        true,
        discharge_plan_id,
        1u32, // Wheelchair
        supplier_id,
        3000u64, // Future delivery date
        1500,
    );

    assert!(result.is_ok());
}

#[test]
fn test_schedule_followup_appointments() {
    let mut contract = HospitalDischargeContract::new();
    let patient_id = create_test_hash(1);

    let discharge_plan_id = contract
        .initiate_discharge_planning(true, patient_id, 1000u64, 2000u64, 0u32, 0)
        .unwrap();

    let appointments = vec![
        FollowUpAppointment {
            provider_id: create_test_hash(40),
            specialty: 0u32, // Primary Care
            scheduled_time: 3000u64,
            location_hash: create_test_hash(41),
        },
        FollowUpAppointment {
            provider_id: create_test_hash(42),
            specialty: 1u32, // Cardiology
            scheduled_time: 3500u64,
            location_hash: create_test_hash(43),
        },
    ];

    let appointment_ids = contract
        .schedule_followup_appointments(true, discharge_plan_id, &appointments, 1500)
        .unwrap();

    assert_eq!(appointment_ids.len(), 2);
    assert_eq!(appointment_ids[0], 0);
    assert_eq!(appointment_ids[1], 1);
}

#[test]
fn test_schedule_followup_appointments_empty() {
    let mut contract = HospitalDischargeContract::new();
    let patient_id = create_test_hash(1);

    let discharge_plan_id = contract
        .initiate_discharge_planning(true, patient_id, 1000u64, 2000u64, 0u32, 0)
        .unwrap();

    let appointments: Vec<FollowUpAppointment> = Vec::new();

    let result = contract.schedule_followup_appointments(true, discharge_plan_id, &appointments, 0);

    assert_eq!(result, Err(Error::InvalidInput));
}

#[test]
fn test_provide_discharge_education() {
    let mut contract = HospitalDischargeContract::new();
    let patient_id = create_test_hash(1);

    let discharge_plan_id = contract
        .initiate_discharge_planning(true, patient_id, 1000u64, 2000u64, 0u32, 0)
        .unwrap();

    let materials_hash = create_test_hash(50);
    let result = contract.provide_discharge_education(
        true,
        discharge_plan_id,
        0u32, // Medications
        materials_hash,
        true,
        0,
    );

    assert!(result.is_ok());
}

#[test]
fn test_coordinate_with_snf() {
    let mut contract = HospitalDischargeContract::new();
    let patient_id = create_test_hash(1);

    let discharge_plan_id = contract
        .initiate_discharge_planning(
            true, patient_id, 1000u64, 2000u64, 1u32, // SNF destination
            0,
        )
        .unwrap();

    let snf_id = create_test_hash(60);
    let medical_summary_hash = create_test_hash(61);

    let result = contract.coordinate_with_snf(
        true,
        discharge_plan_id,
        snf_id,
        true,
        2500u64,
        medical_summary_hash,
        1500,
    );

    assert!(result.is_ok());
}

#[test]
fn test_complete_discharge() {
    let mut contract = HospitalDischargeContract::new();
    let patient_id = create_test_hash(1);

    let discharge_plan_id = contract
        .initiate_discharge_planning(true, patient_id, 1000u64, 2000u64, 0u32, 0)
        .unwrap();

    let discharge_summary_hash = create_test_hash(70);

    let result =
        contract.complete_discharge(true, discharge_plan_id, 2000u64, discharge_summary_hash);

    assert!(result.is_ok());
}

#[test]
fn test_complete_discharge_already_completed() {
    let mut contract = HospitalDischargeContract::new();
    let patient_id = create_test_hash(1);

    let discharge_plan_id = contract
        .initiate_discharge_planning(true, patient_id, 1000u64, 2000u64, 0u32, 0)
        .unwrap();

    let discharge_summary_hash = create_test_hash(70);

    contract
        .complete_discharge(true, discharge_plan_id, 2000u64, discharge_summary_hash)
        .unwrap();

    // Try to complete again
    let result =
        contract.complete_discharge(true, discharge_plan_id, 2000u64, discharge_summary_hash);

    assert_eq!(result, Err(Error::AlreadyCompleted));
}

#[test]
fn test_track_readmission_risk() {
    let mut contract = HospitalDischargeContract::new();
    let patient_id = create_test_hash(1);

    let discharge_plan_id = contract
        .initiate_discharge_planning(true, patient_id, 1000u64, 2000u64, 0u32, 0)
        .unwrap();

    // Risk factors bitmap: 1=MultipleComorbidities, 2=PoorSocialSupport
    let risk_factors = 3u32; // Both factors present
    let risk_score = 75u32;

    let result =
        contract.track_readmission_risk(true, discharge_plan_id, risk_factors, risk_score, 0);

    assert!(result.is_ok());
}

#[test]
fn test_track_readmission_risk_invalid_score() {
    let mut contract = HospitalDischargeContract::new();
    let patient_id = create_test_hash(1);

    let discharge_plan_id = contract
        .initiate_discharge_planning(true, patient_id, 1000u64, 2000u64, 0u32, 0)
        .unwrap();

    let result = contract.track_readmission_risk(
        true,
        discharge_plan_id,
        3u32,
        101u32, // Invalid: > 100
        0,
    );

    assert_eq!(result, Err(Error::InvalidScore));
}

#[test]
fn test_full_discharge_workflow() {
    let mut contract = HospitalDischargeContract::new();
    let patient_id = create_test_hash(1);
    let now = 1000u64;

    // 1. Initiate discharge planning
    let discharge_plan_id = contract
        .initiate_discharge_planning(true, patient_id, 1000u64, 5000u64, 0u32, now)
        .unwrap();

    // 2. Assess readiness
    let readiness = contract
        .assess_discharge_readiness(true, discharge_plan_id, 85u32, 80u32, 90u32, 75u32, now)
        .unwrap();
    assert!(readiness.is_ready);

    // 3. Create discharge orders
    contract
        .create_discharge_orders(true, discharge_plan_id, 0u32, create_test_hash(10), now)
        .unwrap();

    // 4. Arrange home health
    contract
        .arrange_home_health(true, discharge_plan_id, create_test_hash(20), 0u32, 3u32, 4u32, now)
        .unwrap();

    // 5. Order DME
    contract
        .order_dme_for_discharge(
            true,
            discharge_plan_id,
            0u32,
            create_test_hash(30),
            6000u64,
            now,
        )
        .unwrap();

    // 6. Schedule follow-up appointments
    let appointments = vec![FollowUpAppointment {
        provider_id: create_test_hash(40),
        specialty: 0u32,
        scheduled_time: 7000u64,
        location_hash: create_test_hash(41),
    }];
    let appointment_ids = contract
        .schedule_followup_appointments(true, discharge_plan_id, &appointments, now)
        .unwrap();
    assert_eq!(appointment_ids.len(), 1);

    // 7. Provide education
    contract
        .provide_discharge_education(
            true,
            discharge_plan_id,
            0u32,
            create_test_hash(50),
            true,
            now,
        )
        .unwrap();

    // 8. Track readmission risk
    contract
        .track_readmission_risk(true, discharge_plan_id, 1u32, 30u32, now)
        .unwrap();

    // 9. Complete discharge
    contract
        .complete_discharge(true, discharge_plan_id, 5000u64, create_test_hash(70))
        .unwrap();

    // Verify cannot complete again
    let result = contract.complete_discharge(true, discharge_plan_id, 5000u64, create_test_hash(70));
    assert_eq!(result, Err(Error::AlreadyCompleted));
}
