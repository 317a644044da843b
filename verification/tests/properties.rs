//! Whole-run guarantees exercised on concrete values: identifier
//! uniqueness, lifecycle monotonicity, existence gating, date ordering,
//! batch atomicity, and the stored contents behind each operation.

use hospital_discharge::errors::Error;
use hospital_discharge::types::FollowUpAppointment;
use hospital_discharge::workflow::HospitalDischargeContract;

fn create_test_hash(value: u8) -> [u8; 32] {
    let mut bytes = [0u8; 32];
    bytes[0] = value;
    bytes
}

#[test]
fn plan_ids_start_at_zero_and_increase_by_one() {
    let mut contract = HospitalDischargeContract::new();
    let first = contract
        .initiate_discharge_planning(true, create_test_hash(1), 100, 200, 0, 0)
        .unwrap();
    let second = contract
        .initiate_discharge_planning(true, create_test_hash(2), 100, 200, 1, 0)
        .unwrap();
    // A rejected creation does not consume an identifier.
    let rejected = contract.initiate_discharge_planning(true, create_test_hash(3), 200, 100, 0, 0);
    assert_eq!(rejected, Err(Error::InvalidDate));
    let third = contract
        .initiate_discharge_planning(true, create_test_hash(3), 100, 200, 2, 0)
        .unwrap();
    assert_eq!(first, 0);
    assert_eq!(second, 1);
    assert_eq!(third, 2);
}

#[test]
fn invalid_score_stores_no_readiness_record() {
    let mut contract = HospitalDischargeContract::new();
    let id = contract
        .initiate_discharge_planning(true, create_test_hash(1), 100, 200, 0, 0)
        .unwrap();
    let result = contract.assess_discharge_readiness(true, id, 80, 75, 85, 101, 0);
    assert_eq!(result, Err(Error::InvalidScore));
    assert!(contract.get_readiness_assessment(id).is_none());
}

#[test]
fn readiness_assessment_is_overwritten_by_the_last_write() {
    let mut contract = HospitalDischargeContract::new();
    let id = contract
        .initiate_discharge_planning(true, create_test_hash(1), 100, 200, 0, 0)
        .unwrap();
    contract.assess_discharge_readiness(true, id, 80, 75, 85, 70, 5).unwrap();
    contract.assess_discharge_readiness(true, id, 60, 50, 70, 65, 9).unwrap();
    let stored = contract.get_readiness_assessment(id).unwrap();
    assert_eq!(stored.total_score, 61);
    assert_eq!(stored.is_ready, false);
    assert_eq!(stored.assessed_at, 9);
}

#[test]
fn every_operation_rejects_an_unknown_plan() {
    let mut contract = HospitalDischargeContract::new();
    contract
        .initiate_discharge_planning(true, create_test_hash(1), 100, 200, 0, 0)
        .unwrap();
    let unknown = 17u64; // never returned by a creation
    let h = create_test_hash(9);
    let appointments = vec![FollowUpAppointment {
        provider_id: h,
        specialty: 0,
        scheduled_time: 900,
        location_hash: h,
    }];
    assert_eq!(
        contract.assess_discharge_readiness(true, unknown, 1, 2, 3, 4, 0),
        Err(Error::PlanNotFound)
    );
    assert_eq!(contract.create_discharge_orders(true, unknown, 0, h, 0), Err(Error::PlanNotFound));
    assert_eq!(
        contract.arrange_home_health(true, unknown, h, 0, 3, 4, 0),
        Err(Error::PlanNotFound)
    );
    assert_eq!(
        contract.order_dme_for_discharge(true, unknown, 0, h, 900, 0),
        Err(Error::PlanNotFound)
    );
    assert_eq!(
        contract.schedule_followup_appointments(true, unknown, &appointments, 0),
        Err(Error::PlanNotFound)
    );
    assert_eq!(
        contract.provide_discharge_education(true, unknown, 0, h, true, 0),
        Err(Error::PlanNotFound)
    );
    assert_eq!(
        contract.coordinate_with_snf(true, unknown, h, true, 900, h, 0),
        Err(Error::PlanNotFound)
    );
    assert_eq!(contract.complete_discharge(true, unknown, 900, h), Err(Error::PlanNotFound));
    assert_eq!(contract.track_readmission_risk(true, unknown, 1, 30, 0), Err(Error::PlanNotFound));
}

#[test]
fn date_ordering_is_enforced_at_the_boundary() {
    let mut contract = HospitalDischargeContract::new();
    // Equal dates are as invalid as reversed ones.
    assert_eq!(
        contract.initiate_discharge_planning(true, create_test_hash(1), 1000, 1000, 0, 0),
        Err(Error::InvalidDate)
    );
    let id = contract
        .initiate_discharge_planning(true, create_test_hash(1), 1000, 5000, 0, 0)
        .unwrap();
    let h = create_test_hash(2);
    // A delivery or transfer exactly at the current time is not in the future.
    assert_eq!(
        contract.order_dme_for_discharge(true, id, 0, h, 1500, 1500),
        Err(Error::InvalidDate)
    );
    assert_eq!(
        contract.coordinate_with_snf(true, id, h, true, 1500, h, 1500),
        Err(Error::InvalidDate)
    );
    assert!(contract.get_dme_order_list(id).is_empty());
    assert!(contract.get_snf_coordination(id).is_none());
}

#[test]
fn one_bad_appointment_rejects_the_whole_batch() {
    let mut contract = HospitalDischargeContract::new();
    let id = contract
        .initiate_discharge_planning(true, create_test_hash(1), 100, 200, 0, 0)
        .unwrap();
    let now = 1500u64;
    let appointment = |seed: u8, time: u64| FollowUpAppointment {
        provider_id: create_test_hash(seed),
        specialty: 0,
        scheduled_time: time,
        location_hash: create_test_hash(seed + 1),
    };
    let batch = vec![
        appointment(40, 3000), // valid
        appointment(42, 3500), // valid
        appointment(44, 1000), // invalid: not in the future
    ];
    let result = contract.schedule_followup_appointments(true, id, &batch, now);
    assert_eq!(result, Err(Error::InvalidDate));
    // Nothing was persisted, the individually valid entries included.
    assert!(contract.get_followup_appointment_list(id).is_empty());
    // The appointment counter was not consumed either: the next successful
    // batch still numbers from zero.
    let good = vec![appointment(40, 3000)];
    let ids = contract.schedule_followup_appointments(true, id, &good, now).unwrap();
    assert_eq!(ids, vec![0]);
}

#[test]
fn unauthorized_callers_are_rejected_before_any_other_check() {
    let mut contract = HospitalDischargeContract::new();
    let h = create_test_hash(1);
    // Even with otherwise invalid inputs, authorization fails first.
    assert_eq!(
        contract.initiate_discharge_planning(false, h, 2000, 1000, 0, 0),
        Err(Error::Unauthorized)
    );
    assert_eq!(
        contract.assess_discharge_readiness(false, 99, 101, 0, 0, 0, 0),
        Err(Error::Unauthorized)
    );
    assert_eq!(contract.complete_discharge(false, 99, 0, h), Err(Error::Unauthorized));
    // Nothing was created along the way.
    assert!(!contract.has_discharge_plan(0));
}

#[test]
fn stored_records_hold_the_submitted_values() {
    let mut contract = HospitalDischargeContract::new();
    let id = contract
        .initiate_discharge_planning(true, create_test_hash(1), 1000, 5000, 2, 700)
        .unwrap();

    let plan = contract.get_discharge_plan(id).unwrap();
    assert_eq!(plan.patient_id, create_test_hash(1));
    assert_eq!(plan.admission_date, 1000);
    assert_eq!(plan.expected_discharge_date, 5000);
    assert_eq!(plan.discharge_destination, 2);
    assert_eq!(plan.created_at, 700);
    assert!(!plan.is_completed);

    contract.create_discharge_orders(true, id, 3, create_test_hash(10), 710).unwrap();
    contract.create_discharge_orders(true, id, 1, create_test_hash(11), 720).unwrap();
    let orders = contract.get_discharge_order_list(id);
    assert_eq!(orders.len(), 2);
    assert_eq!(orders[0].order_type, 3);
    assert_eq!(orders[0].order_details_hash, create_test_hash(10));
    assert_eq!(orders[0].created_at, 710);
    assert_eq!(orders[1].order_type, 1);

    contract.arrange_home_health(true, id, create_test_hash(20), 1, 3, 4, 730).unwrap();
    let arrangement = contract.get_home_health_arrangement(id).unwrap();
    assert_eq!(arrangement.agency_id, create_test_hash(20));
    assert_eq!(arrangement.service_type, 1);
    assert_eq!(arrangement.frequency_per_week, 3);
    assert_eq!(arrangement.duration_weeks, 4);
    assert_eq!(arrangement.arranged_at, 730);

    contract.order_dme_for_discharge(true, id, 2, create_test_hash(30), 6000, 740).unwrap();
    let dme = contract.get_dme_order_list(id);
    assert_eq!(dme.len(), 1);
    assert_eq!(dme[0].equipment_type, 2);
    assert_eq!(dme[0].supplier_id, create_test_hash(30));
    assert_eq!(dme[0].delivery_date, 6000);
    assert_eq!(dme[0].ordered_at, 740);

    contract.provide_discharge_education(true, id, 2, create_test_hash(50), false, 750).unwrap();
    let education = contract.get_education_record_list(id);
    assert_eq!(education.len(), 1);
    assert_eq!(education[0].education_topic, 2);
    assert_eq!(education[0].materials_hash, create_test_hash(50));
    assert!(!education[0].completed);
    assert_eq!(education[0].provided_at, 750);

    contract
        .coordinate_with_snf(true, id, create_test_hash(60), true, 6500, create_test_hash(61), 760)
        .unwrap();
    let coordination = contract.get_snf_coordination(id).unwrap();
    assert_eq!(coordination.snf_id, create_test_hash(60));
    assert!(coordination.bed_reserved);
    assert_eq!(coordination.transfer_date, 6500);
    assert_eq!(coordination.medical_summary_hash, create_test_hash(61));
    assert_eq!(coordination.coordinated_at, 760);

    contract.track_readmission_risk(true, id, 5, 30, 770).unwrap();
    let risk = contract.get_readmission_risk(id).unwrap();
    assert_eq!(risk.risk_factors, 5);
    assert_eq!(risk.risk_score, 30);
    assert_eq!(risk.tracked_at, 770);

    contract.complete_discharge(true, id, 5000, create_test_hash(70)).unwrap();
    let plan_after = contract.get_discharge_plan(id).unwrap();
    assert!(plan_after.is_completed);
    let completion = contract.get_completion_record(id).unwrap();
    assert_eq!(completion.actual_discharge_date, 5000);
    assert_eq!(completion.discharge_summary_hash, create_test_hash(70));
}

#[test]
fn appointments_store_every_entry_in_order() {
    let mut contract = HospitalDischargeContract::new();
    let id = contract
        .initiate_discharge_planning(true, create_test_hash(1), 100, 200, 0, 0)
        .unwrap();
    let first = FollowUpAppointment {
        provider_id: create_test_hash(40),
        specialty: 0,
        scheduled_time: 3000,
        location_hash: create_test_hash(41),
    };
    let second = FollowUpAppointment {
        provider_id: create_test_hash(42),
        specialty: 1,
        scheduled_time: 3500,
        location_hash: create_test_hash(43),
    };
    let ids = contract
        .schedule_followup_appointments(true, id, &vec![first, second], 1500)
        .unwrap();
    assert_eq!(ids, vec![0, 1]);
    let stored = contract.get_followup_appointment_list(id);
    assert_eq!(stored.len(), 2);
    assert_eq!(stored[0], first);
    assert_eq!(stored[1], second);
    // Appointment identifiers are global: a batch for another plan
    // continues the sequence.
    let other = contract
        .initiate_discharge_planning(true, create_test_hash(2), 100, 200, 0, 0)
        .unwrap();
    let more = contract
        .schedule_followup_appointments(true, other, &vec![first], 1500)
        .unwrap();
    assert_eq!(more, vec![2]);
}

#[test]
fn completion_gates_only_itself() {
    let mut contract = HospitalDischargeContract::new();
    let id = contract
        .initiate_discharge_planning(true, create_test_hash(1), 100, 200, 0, 0)
        .unwrap();
    contract.complete_discharge(true, id, 200, create_test_hash(70)).unwrap();
    // A completed plan still accepts side annotations, in any order.
    assert!(contract.assess_discharge_readiness(true, id, 80, 75, 85, 70, 0).is_ok());
    assert!(contract.create_discharge_orders(true, id, 0, create_test_hash(10), 0).is_ok());
    // Only completion itself is rejected.
    assert_eq!(
        contract.complete_discharge(true, id, 300, create_test_hash(71)),
        Err(Error::AlreadyCompleted)
    );
    // The write-once completion record kept its original values.
    let completion = contract.get_completion_record(id).unwrap();
    assert_eq!(completion.actual_discharge_date, 200);
    assert_eq!(completion.discharge_summary_hash, create_test_hash(70));
}
