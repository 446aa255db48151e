use medical_consent::access::{Error, Event, GenesisConfig, Pallet};
use medical_consent::origin::Origin;

const R: [u8; 32] = [3u8; 32];
const A: u64 = 42;

fn registry_with(role: [u8; 32]) -> Pallet {
    GenesisConfig { roles: vec![role] }.build()
}

#[test]
fn role_assigned_checked_and_revoked() {
    let mut p = registry_with(R);
    assert_eq!(p.assign(Origin::Root, A, R), Ok(Event::RoleAssigned { user: A, role: R }));
    assert_eq!(p.has_role(Origin::Signed(A), A, R), Ok(()));
    assert_eq!(p.revoke(Origin::Root, A, R), Ok(Event::RoleRevoked { user: A, role: R }));
    assert_eq!(p.has_role(Origin::Signed(A), A, R), Err(Error::NotAssigned));
}

#[test]
fn unknown_role_is_invalid() {
    let mut p = registry_with(R);
    let other = [4u8; 32];
    assert_eq!(p.assign(Origin::Root, A, other), Err(Error::InvalidRole));
    assert_eq!(p.revoke(Origin::Root, A, other), Err(Error::InvalidRole));
    assert_eq!(p.has_role(Origin::Signed(A), A, other), Err(Error::InvalidRole));
    assert_eq!(p.validate_role(A, other), Err(Error::InvalidRole));
}

#[test]
fn assigning_twice_is_rejected() {
    let mut p = registry_with(R);
    assert!(p.assign_role(A, R).is_ok());
    assert_eq!(p.assign_role(A, R), Err(Error::AlreadyHasRole));
    assert!(p.revoke_role(A, R).is_ok());
    assert_eq!(p.revoke_role(A, R), Err(Error::NotAssigned));
    assert_eq!(p.assign_role(A, R), Ok(Event::RoleAssigned { user: A, role: R }));
    assert!(p.is_member(&R, A));
}

#[test]
fn revoking_never_assigned_is_rejected() {
    let mut p = registry_with(R);
    assert_eq!(p.revoke_role(A, R), Err(Error::NotAssigned));
    assert_eq!(p.validate_role(A, R), Err(Error::NotAssigned));
}

#[test]
fn only_root_assigns_and_revokes() {
    let mut p = registry_with(R);
    assert_eq!(p.assign(Origin::Signed(A), A, R), Err(Error::BadOrigin));
    assert_eq!(p.assign(Origin::Unsigned, A, R), Err(Error::BadOrigin));
    assert!(!p.is_member(&R, A));
    assert!(p.assign(Origin::Root, A, R).is_ok());
    assert_eq!(p.revoke(Origin::Signed(A), A, R), Err(Error::BadOrigin));
    assert!(p.is_member(&R, A));
    assert_eq!(p.has_role(Origin::Root, A, R), Err(Error::BadOrigin));
}

#[test]
fn roles_are_per_account_and_per_role() {
    let mut p = registry_with(R);
    let s = [5u8; 32];
    assert_eq!(p.register_role(Origin::Root, s), Ok(Event::RoleRegistered { role: s }));
    assert!(p.assign_role(A, R).is_ok());
    assert_eq!(p.validate_role(A + 1, R), Err(Error::NotAssigned));
    assert_eq!(p.validate_role(A, s), Err(Error::NotAssigned));
    assert_eq!(p.validate_role(A, R), Ok(()));
}

#[test]
fn registering_a_role_twice_is_harmless() {
    let mut p = Pallet::new();
    assert!(!p.is_registered(&R));
    assert_eq!(p.register_role(Origin::Root, R), Ok(Event::RoleRegistered { role: R }));
    assert_eq!(p.register_role(Origin::Root, R), Ok(Event::RoleRegistered { role: R }));
    assert!(p.is_registered(&R));
    assert!(p.assign_role(A, R).is_ok());
    assert_eq!(p.register_role(Origin::Root, R), Ok(Event::RoleRegistered { role: R }));
    assert!(p.is_member(&R, A));
}

#[test]
fn default_genesis_knows_no_roles() {
    let g = GenesisConfig::default();
    assert!(g.roles.is_empty());
    let p = g.build();
    assert!(!p.is_registered(&[0u8; 32]));
}

#[test]
fn roles_differ_in_one_byte() {
    let mut a = [0u8; 32];
    let b = [0u8; 32];
    assert!(medical_consent::access::same_role(&a, &b));
    a[31] = 1;
    assert!(!medical_consent::access::same_role(&a, &b));
}

#[test]
fn only_root_registers_roles() {
    let mut p = Pallet::new();
    assert_eq!(p.register_role(Origin::Signed(A), R), Err(Error::BadOrigin));
    assert_eq!(p.register_role(Origin::Unsigned, R), Err(Error::BadOrigin));
    assert!(!p.is_registered(&R));
    assert_eq!(p.register_role(Origin::Root, R), Ok(Event::RoleRegistered { role: R }));
    assert!(p.is_registered(&R));
}
