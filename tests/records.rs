use medical_consent::access;
use medical_consent::correlation::OrderingUnit;
use medical_consent::doctor::{self, Config, Doctors};
use medical_consent::origin::{ensure_root, ensure_signed, Origin};
use medical_consent::patient::{Error, Event, Pallet, Patients};

const P: u64 = 1;
const D: u64 = 2;
const CONFIG: Config = Config { max_hash_length: 4, max_list_length: 2 };
const UNIT: OrderingUnit = OrderingUnit { height: 3, seed: 7 };

fn doctors_registry() -> access::Pallet {
    let mut roles = access::GenesisConfig { roles: vec![[0u8; 32]] }.build();
    assert!(roles.assign(Origin::Root, D, [0u8; 32]).is_ok());
    roles
}

#[test]
fn patient_approves_then_revokes_doctor() {
    let roles = doctors_registry();
    let mut p = Pallet::new(&CONFIG);
    assert_eq!(
        p.register_patient_self(Origin::Signed(P), None, Some(vec![1, 2])),
        Ok(Event::PatientDataUpdated { patient_account_id: P })
    );
    let queued = p.request_patient_data(Origin::Signed(D), &roles, P, UNIT, 0);
    let id = UNIT.correlation_id(0);
    assert_eq!(queued, Ok(Event::RequestQueued { requester: D, patient_account_id: P, correlation_id: id }));
    assert_eq!(
        p.approve_request(Origin::Signed(P), D),
        Ok(Event::RequestApproved { requester: D, patient_account_id: P, correlation_id: id })
    );
    assert_eq!(p.read_patient_data(Origin::Signed(D), P), Ok(vec![1, 2]));
    assert_eq!(p.revoke_access(Origin::Signed(P), D), Ok(()));
    assert_eq!(p.read_patient_data(Origin::Signed(D), P), Err(Error::NotApproved));
}

#[test]
fn pending_request_gives_no_access() {
    let roles = doctors_registry();
    let mut p = Pallet::new(&CONFIG);
    assert!(p.register(P, None, Some(vec![9])).is_ok());
    assert!(p.request(D, P, UNIT, 0).is_ok());
    assert_eq!(p.request_list(P), vec![D]);
    assert_eq!(p.requests_made(D), vec![P]);
    assert_eq!(p.read(P, D), Err(Error::NotApproved));
    assert_eq!(p.update(P, D, Some(vec![1]), None), Err(Error::NotApproved));
    assert_eq!(
        p.update_patient_data(Origin::Signed(D), &roles, P, Some(vec![1]), None),
        Err(Error::NotApproved)
    );
    assert_eq!(p.read(P, D + 1), Err(Error::NotApproved));
    assert_eq!(p.read(P, D), Err(Error::NotApproved));
    assert!(!p.is_approved(P, D));
}

#[test]
fn approved_doctor_updates_record() {
    let roles = doctors_registry();
    let mut p = Pallet::new(&CONFIG);
    assert!(p.register(P, Some(vec![5]), None).is_ok());
    assert_eq!(p.read(P, D), Err(Error::NotApproved));
    assert!(p.request(D, P, UNIT, 0).is_ok());
    assert!(p.approve(P, D).is_ok());
    assert_eq!(p.approved_request_list(P), vec![D]);
    assert_eq!(p.approvals_received(D), vec![P]);
    assert_eq!(p.read(P, D), Err(Error::NoData));
    assert_eq!(
        p.update_patient_data(Origin::Signed(D), &roles, P, Some(vec![7, 7]), Some(vec![6])),
        Ok(Event::DataUpdated { requester: D, patient_account_id: P })
    );
    assert_eq!(p.read(P, D), Ok(vec![7, 7]));
    assert_eq!(p.update(P, D, Some(vec![1, 2, 3, 4, 5]), None), Err(Error::BoundsOverflow));
    assert_eq!(p.read(P, D), Ok(vec![7, 7]));
    assert_eq!(p.update(P, D, None, None), Ok(Event::DataUpdated { requester: D, patient_account_id: P }));
    assert_eq!(p.read(P, D), Err(Error::NoData));
}

#[test]
fn request_needs_registered_patient() {
    let roles = doctors_registry();
    let mut p = Pallet::new(&CONFIG);
    assert_eq!(p.request_patient_data(Origin::Signed(D), &roles, P, UNIT, 0), Err(Error::NoPatient));
    assert_eq!(p.request_list(P), Vec::<u64>::new());
    assert!(!p.contains(P));
}

#[test]
fn request_needs_doctor_role() {
    let roles = doctors_registry();
    let mut p = Pallet::new(&CONFIG);
    assert!(p.register(P, None, None).is_ok());
    assert_eq!(
        p.request_patient_data(Origin::Signed(5), &roles, P, UNIT, 0),
        Err(Error::Role(access::Error::NotAssigned))
    );
    assert_eq!(p.request_patient_data(Origin::Unsigned, &roles, P, UNIT, 0), Err(Error::BadOrigin));
    assert_eq!(p.request_patient_data(Origin::Root, &roles, P, UNIT, 0), Err(Error::BadOrigin));
    let empty = access::Pallet::new();
    assert_eq!(
        p.request_patient_data(Origin::Signed(D), &empty, P, UNIT, 0),
        Err(Error::Role(access::Error::InvalidRole))
    );
    assert_eq!(p.request_list(P), Vec::<u64>::new());
}

#[test]
fn duplicate_and_bounded_requests() {
    let mut p = Pallet::new(&CONFIG);
    assert!(p.register(P, None, None).is_ok());
    assert!(p.request(D, P, UNIT, 0).is_ok());
    assert_eq!(p.request(D, P, UNIT, 1), Err(Error::AlreadyRequested));
    assert!(p.request(D + 1, P, UNIT, 2).is_ok());
    assert_eq!(p.request(D + 2, P, UNIT, 3), Err(Error::MaxListLengthReached));
    assert_eq!(p.request_list(P), vec![D, D + 1]);
    assert!(p.approve(P, D).is_ok());
    assert_eq!(p.request(D, P, UNIT, 4), Err(Error::AlreadyApproved));
    assert_eq!(p.approve(P, D), Err(Error::NoRequest));
    assert_eq!(p.approve(P, D + 5), Err(Error::NoRequest));
}

#[test]
fn requests_in_one_unit_get_distinct_identifiers() {
    let mut p = Pallet::new(&CONFIG);
    assert!(p.register(P, None, None).is_ok());
    let first = p.request(D, P, UNIT, 0);
    let second = p.request(D + 1, P, UNIT, 1);
    let (a, b) = match (first, second) {
        (
            Ok(Event::RequestQueued { correlation_id: a, .. }),
            Ok(Event::RequestQueued { correlation_id: b, .. }),
        ) => (a, b),
        other => panic!("unexpected {:?}", other),
    };
    assert_ne!(a, b);
}

#[test]
fn revoke_without_request_fails() {
    let mut p = Pallet::new(&CONFIG);
    assert!(p.register(P, None, None).is_ok());
    assert_eq!(p.revoke(P, D), Err(Error::NoRequest));
    assert_eq!(p.revoke_access(Origin::Unsigned, D), Err(Error::BadOrigin));
    assert!(p.request(D, P, UNIT, 0).is_ok());
    assert_eq!(p.revoke_access(Origin::Signed(P), D), Ok(()));
    assert_eq!(p.request_list(P), Vec::<u64>::new());
    assert_eq!(p.requests_made(D), Vec::<u64>::new());
}

#[test]
fn registration_rules() {
    let roles = doctors_registry();
    let mut p = Pallet::new(&CONFIG);
    assert_eq!(p.register(P, Some(vec![1, 2, 3, 4, 5]), None), Err(Error::BoundsOverflow));
    assert_eq!(p.register(P, None, Some(vec![0; 5])), Err(Error::BoundsOverflow));
    assert!(!p.contains(P));
    assert!(p.register(P, Some(vec![1, 2, 3, 4]), None).is_ok());
    assert_eq!(p.register(P, None, None), Err(Error::AlreadyRegistered));
    assert_eq!(p.register_patient_self(Origin::Unsigned, None, None), Err(Error::BadOrigin));
    assert_eq!(
        p.register_patient(Origin::Signed(P), &roles, 9, None, None),
        Err(Error::Role(access::Error::NotAssigned))
    );
    assert!(!p.contains(9));
    assert_eq!(
        p.register_patient(Origin::Signed(D), &roles, 9, None, None),
        Ok(Event::PatientDataUpdated { patient_account_id: 9 })
    );
    assert!(p.contains(9));
}

#[test]
fn patient_defaults_are_empty() {
    let r = Patients::default();
    assert_eq!(r.personal_data_hash, None);
    assert_eq!(r.data_hash, None);
    assert_eq!(Doctors::default().personal_data_hash, None);
}

#[test]
fn doctor_registration() {
    let mut d = doctor::Pallet::new(&CONFIG);
    assert_eq!(
        d.register(Origin::Signed(D), Some(vec![1])),
        Ok(doctor::Event::DoctorDataUpdated { doctor_account_id: D })
    );
    assert!(d.contains(D));
    assert_eq!(d.register(Origin::Signed(D), None), Err(doctor::Error::AlreadyRegistered));
    assert_eq!(d.register(Origin::Root, None), Err(doctor::Error::BadOrigin));
    assert_eq!(d.register_self(D + 1, Some(vec![0; 5])), Err(doctor::Error::BoundsOverflow));
    assert!(!d.contains(D + 1));
    assert!(d.register_self(D + 1, Some(vec![0; 4])).is_ok());
}

#[test]
fn origins() {
    assert_eq!(ensure_signed(Origin::Signed(4)), Some(4));
    assert_eq!(ensure_signed(Origin::Root), None);
    assert!(ensure_root(Origin::Root));
    assert!(!ensure_root(Origin::Unsigned));
}

#[test]
fn approved_lists_follow_approval_order() {
    let mut p = Pallet::new(&Config { max_hash_length: 4, max_list_length: 4 });
    assert!(p.register(P, None, None).is_ok());
    assert!(p.request(2, P, UNIT, 0).is_ok());
    assert!(p.request(3, P, UNIT, 1).is_ok());
    assert!(p.approve(P, 3).is_ok());
    assert!(p.approve(P, 2).is_ok());
    assert_eq!(p.approved_request_list(P), vec![3, 2]);
    assert_eq!(p.approvals_received(2), vec![P]);
}
