//! Patients' records and the operations on them: registration, access
//! requests, approval, revocation, and reads and updates by approved
//! requesters.

use vstd::prelude::*;
use std::collections::HashMap;
use crate::access;
use crate::correlation::{correlation_id, OrderingUnit};
use crate::doctor::{fits, fits_bound, Config};
use crate::ledger::{
    after_approve, after_request, after_revoke, approve_result, is_approved, is_pending,
    is_present, ledger_wf, lemma_never_pending_and_approved, list_of, request_result, revoke_result, Ledger, LedgerError, Link, ListKind,
};
use crate::origin::{ensure_signed, Origin};

verus! {

broadcast use vstd::std_specs::hash::group_hash_axioms;

/// A patient's record: references to their personal data and to their
/// medical data, each optional.
#[derive(Debug, PartialEq, Eq)]
pub struct Patients {
    pub personal_data_hash: Option<Vec<u8>>,
    pub data_hash: Option<Vec<u8>>,
}

impl Default for Patients {
    fn default() -> (p: Self)
        ensures
            p.personal_data_hash is None,
            p.data_hash is None,
    {
        Patients { personal_data_hash: None, data_hash: None }
    }
}

#[derive(Clone, Copy, Debug, PartialEq, Eq)]
pub enum Event {
    /// A patient registered.
    PatientDataUpdated { patient_account_id: u64 },
    /// A request was queued under a fresh correlation identifier.
    RequestQueued { requester: u64, patient_account_id: u64, correlation_id: u128 },
    /// A request was approved; the identifier is the one it was queued under.
    RequestApproved { requester: u64, patient_account_id: u64, correlation_id: u128 },
    /// An approved requester replaced the patient's record.
    DataUpdated { requester: u64, patient_account_id: u64 },
}

#[derive(Clone, Copy, Debug, PartialEq, Eq, Structural)]
pub enum Error {
    BoundsOverflow,
    AlreadyRegistered,
    AlreadyRequested,
    AlreadyApproved,
    NoRequest,
    MaxListLengthReached,
    NotApproved,
    NoPatient,
    /// The record holds no data to read.
    NoData,
    /// The operation was not signed.
    BadOrigin,
    /// The signer failed the role check.
    Role(access::Error),
}

/// The role that requesting and updating accounts must hold: 32 zero bytes.
pub open spec fn is_zero_role(r: [u8; 32]) -> bool {
    forall|i: int| 0 <= i < 32 ==> #[trigger] r[i] == 0
}

pub open spec fn doctor_role() -> [u8; 32] {
    choose|r: [u8; 32]| is_zero_role(r)
}

/// The role that requesting and updating accounts must hold.
pub fn doctor_role_exec() -> (r: [u8; 32])
    ensures
        r == doctor_role(),
{
    let r: [u8; 32] = [0u8; 32];
    proof {
        broadcast use vstd::array::group_array_axioms;
        assert(is_zero_role(r));
        let c = doctor_role();
        assert(is_zero_role(c));
        assert(r =~= c);
    }
    r
}

pub open spec fn ledger_error(e: LedgerError) -> Error {
    match e {
        LedgerError::AlreadyRequested => Error::AlreadyRequested,
        LedgerError::AlreadyApproved => Error::AlreadyApproved,
        LedgerError::NoRequest => Error::NoRequest,
        LedgerError::MaxListLengthReached => Error::MaxListLengthReached,
    }
}

pub fn from_ledger_error(e: LedgerError) -> (r: Error)
    ensures
        r == ledger_error(e),
{
    match e {
        LedgerError::AlreadyRequested => Error::AlreadyRequested,
        LedgerError::AlreadyApproved => Error::AlreadyApproved,
        LedgerError::NoRequest => Error::NoRequest,
        LedgerError::MaxListLengthReached => Error::MaxListLengthReached,
    }
}

/// The signer of `origin`, once it has passed the role check of `roles`.
pub open spec fn role_gate(roles: access::Pallet, origin: Origin) -> Result<u64, Error> {
    match origin {
        Origin::Signed(a) => match roles.validate_result(a, doctor_role()) {
            Ok(_) => Ok(a),
            Err(e) => Err(Error::Role(e)),
        },
        _ => Err(Error::BadOrigin),
    }
}

/// The signer of `origin`, if it is signed.
pub open spec fn signer(origin: Origin) -> Result<u64, Error> {
    match origin {
        Origin::Signed(a) => Ok(a),
        _ => Err(Error::BadOrigin),
    }
}

/// Checks that `origin` is signed by an account that holds the doctor role.
pub fn check_role(roles: &access::Pallet, origin: Origin) -> (r: Result<u64, Error>)
    requires
        roles.wf(),
    ensures
        r == role_gate(*roles, origin),
{
    let sender = match ensure_signed(origin) {
        Some(a) => a,
        None => {
            return Err(Error::BadOrigin);
        },
    };
    match roles.has_role(origin, sender, doctor_role_exec()) {
        Ok(()) => Ok(sender),
        Err(e) => Err(Error::Role(e)),
    }
}

/// The signer of `origin`.
pub fn check_signed(origin: Origin) -> (r: Result<u64, Error>)
    ensures
        r == signer(origin),
{
    match ensure_signed(origin) {
        Some(a) => Ok(a),
        None => Err(Error::BadOrigin),
    }
}

/// The records and the consent ledger of the patients.
pub struct Pallet {
    data: HashMap<u64, Patients>,
    ledger: Ledger,
    max_hash_length: u32,
}

impl Pallet {
    /// The record of each registered patient.
    pub closed spec fn data(&self) -> Map<u64, Patients> {
        self.data@
    }

    /// The consent links, patients as owners.
    pub closed spec fn links(&self) -> Seq<Link> {
        self.ledger@
    }

    pub closed spec fn max_hash_len(&self) -> nat {
        self.max_hash_length as nat
    }

    pub closed spec fn max_list_len(&self) -> nat {
        self.ledger.max_len()
    }

    /// The ledger's invariant: one link per pair, no list over the bound.
    pub open spec fn wf(&self) -> bool {
        ledger_wf(self.links(), self.max_list_len())
    }

    /// Whether the records and links of `self` and `other` are the same.
    pub open spec fn unchanged_from(&self, other: &Self) -> bool {
        self.data() == other.data() && self.links() == other.links()
    }

    /// Whether only the records can differ between `self` and `other`.
    pub open spec fn same_links(&self, other: &Self) -> bool {
        self.links() == other.links() && self.max_list_len() == other.max_list_len()
            && self.max_hash_len() == other.max_hash_len()
    }

    /// Whether only the links can differ between `self` and `other`.
    pub open spec fn same_data(&self, other: &Self) -> bool {
        self.data() == other.data() && self.max_list_len() == other.max_list_len()
            && self.max_hash_len() == other.max_hash_len()
    }

    pub open spec fn is_registered(&self, a: u64) -> bool {
        self.data().contains_key(a)
    }

    /// What `register` answers.
    pub open spec fn register_result(
        &self,
        a: u64,
        personal_data_hash: Option<Vec<u8>>,
        data_hash: Option<Vec<u8>>,
    ) -> Result<Event, Error> {
        if !fits(personal_data_hash, self.max_hash_len()) || !fits(data_hash, self.max_hash_len()) {
            Err(Error::BoundsOverflow)
        } else if self.is_registered(a) {
            Err(Error::AlreadyRegistered)
        } else {
            Ok(Event::PatientDataUpdated { patient_account_id: a })
        }
    }

    /// What `request` answers.
    pub open spec fn request_result(&self, requester: u64, patient: u64, id: u128) -> Result<Event, Error> {
        if !self.is_registered(patient) {
            Err(Error::NoPatient)
        } else {
            match request_result(self.links(), self.max_list_len(), patient, requester) {
                Ok(_) => Ok(Event::RequestQueued { requester, patient_account_id: patient, correlation_id: id }),
                Err(e) => Err(ledger_error(e)),
            }
        }
    }

    /// The links after `request`.
    pub open spec fn links_after_request(&self, requester: u64, patient: u64, id: u128) -> Seq<Link> {
        if !self.is_registered(patient) {
            self.links()
        } else {
            after_request(self.links(), self.max_list_len(), patient, requester, id)
        }
    }

    /// What `approve` answers.
    pub open spec fn approve_result(&self, patient: u64, requester: u64) -> Result<Event, Error> {
        match approve_result(self.links(), self.max_list_len(), patient, requester) {
            Ok(id) => Ok(Event::RequestApproved { requester, patient_account_id: patient, correlation_id: id }),
            Err(e) => Err(ledger_error(e)),
        }
    }

    /// What `update` answers.
    pub open spec fn update_result(
        &self,
        patient: u64,
        requester: u64,
        data_hash: Option<Vec<u8>>,
        personal_data_hash: Option<Vec<u8>>,
    ) -> Result<Event, Error> {
        if !is_approved(self.links(), patient, requester) {
            Err(Error::NotApproved)
        } else if !fits(personal_data_hash, self.max_hash_len()) || !fits(data_hash, self.max_hash_len()) {
            Err(Error::BoundsOverflow)
        } else {
            Ok(Event::DataUpdated { requester, patient_account_id: patient })
        }
    }

    /// What `read` answers, as bytes.
    pub open spec fn read_result(&self, patient: u64, requester: u64) -> Result<Seq<u8>, Error> {
        if !is_approved(self.links(), patient, requester) {
            Err(Error::NotApproved)
        } else if !self.is_registered(patient) || self.data()[patient].data_hash is None {
            Err(Error::NoData)
        } else {
            Ok(self.data()[patient].data_hash.unwrap()@)
        }
    }

    /// No patients and no links, under the bounds of `config`.
    pub fn new(config: &Config) -> (p: Self)
        ensures
            p.wf(),
            p.data() == Map::<u64, Patients>::empty(),
            p.links() == Seq::<Link>::empty(),
            p.max_hash_len() == config.max_hash_length,
            p.max_list_len() == config.max_list_length,
    {
        Pallet { data: HashMap::new(), ledger: Ledger::new(config.max_list_length), max_hash_length: config.max_hash_length }
    }

    /// Creates the record of patient `a`; a second registration is rejected.
    pub fn register(
        &mut self,
        a: u64,
        personal_data_hash: Option<Vec<u8>>,
        data_hash: Option<Vec<u8>>,
    ) -> (res: Result<Event, Error>)
        requires
            old(self).wf(),
        ensures
            final(self).wf(),
            final(self).same_links(old(self)),
            res == old(self).register_result(a, personal_data_hash, data_hash),
            res is Err ==> final(self).data() == old(self).data(),
            res is Ok ==> final(self).data() == old(self).data().insert(a, Patients { personal_data_hash, data_hash }),
    {
        if !fits_bound(&personal_data_hash, self.max_hash_length) || !fits_bound(&data_hash, self.max_hash_length) {
            return Err(Error::BoundsOverflow);
        }
        if self.data.contains_key(&a) {
            return Err(Error::AlreadyRegistered);
        }
        self.data.insert(a, Patients { personal_data_hash, data_hash });
        Ok(Event::PatientDataUpdated { patient_account_id: a })
    }

    /// Whether patient `a` is registered.
    pub fn contains(&self, a: u64) -> (b: bool)
        ensures
            b == self.is_registered(a),
    {
        self.data.contains_key(&a)
    }

    /// Queues a request of `requester` for the record of `patient`, under the
    /// identifier of `position` in `unit`.
    pub fn request(&mut self, requester: u64, patient: u64, unit: OrderingUnit, position: u32) -> (res: Result<Event, Error>)
        requires
            old(self).wf(),
        ensures
            final(self).wf(),
            final(self).same_data(old(self)),
            res == old(self).request_result(requester, patient, correlation_id(unit.height, unit.seed, position) as u128),
            final(self).links() == old(self).links_after_request(
                requester,
                patient,
                correlation_id(unit.height, unit.seed, position) as u128,
            ),
            res is Ok ==> is_pending(final(self).links(), patient, requester),
    {
        if !self.data.contains_key(&patient) {
            return Err(Error::NoPatient);
        }
        let id = unit.correlation_id(position);
        match self.ledger.request(requester, patient, id) {
            Ok(()) => Ok(Event::RequestQueued { requester, patient_account_id: patient, correlation_id: id }),
            Err(e) => Err(from_ledger_error(e)),
        }
    }

    /// Approves the pending request of `requester` for the record of `patient`.
    pub fn approve(&mut self, patient: u64, requester: u64) -> (res: Result<Event, Error>)
        requires
            old(self).wf(),
        ensures
            final(self).wf(),
            final(self).same_data(old(self)),
            res == old(self).approve_result(patient, requester),
            final(self).links() == after_approve(old(self).links(), old(self).max_list_len(), patient, requester),
            res is Ok ==> is_approved(final(self).links(), patient, requester)
                && !is_pending(final(self).links(), patient, requester),
    {
        match self.ledger.approve(patient, requester) {
            Ok(id) => Ok(Event::RequestApproved { requester, patient_account_id: patient, correlation_id: id }),
            Err(e) => Err(from_ledger_error(e)),
        }
    }

    /// Withdraws the request or the approval of `requester` for the record of
    /// `patient`.
    pub fn revoke(&mut self, patient: u64, requester: u64) -> (res: Result<(), Error>)
        requires
            old(self).wf(),
        ensures
            final(self).wf(),
            final(self).same_data(old(self)),
            res == (match revoke_result(old(self).links(), patient, requester) {
                Ok(_) => Ok::<(), Error>(()),
                Err(e) => Err(ledger_error(e)),
            }),
            final(self).links() == after_revoke(old(self).links(), patient, requester),
            !is_present(final(self).links(), patient, requester),
    {
        match self.ledger.revoke(patient, requester) {
            Ok(()) => Ok(()),
            Err(e) => Err(from_ledger_error(e)),
        }
    }

    /// Whether `requester` is approved for the record of `patient`.
    pub fn is_approved(&self, patient: u64, requester: u64) -> (b: bool)
        requires
            self.wf(),
        ensures
            b == is_approved(self.links(), patient, requester),
    {
        self.ledger.is_approved(patient, requester)
    }

    /// Replaces the record of `patient`, on behalf of an approved `requester`.
    pub fn update(
        &mut self,
        patient: u64,
        requester: u64,
        data_hash: Option<Vec<u8>>,
        personal_data_hash: Option<Vec<u8>>,
    ) -> (res: Result<Event, Error>)
        requires
            old(self).wf(),
        ensures
            final(self).wf(),
            final(self).same_links(old(self)),
            res == old(self).update_result(patient, requester, data_hash, personal_data_hash),
            res is Err ==> final(self).data() == old(self).data(),
            res is Ok ==> final(self).data() == old(self).data().insert(patient, Patients { personal_data_hash, data_hash }),
    {
        if !self.ledger.is_approved(patient, requester) {
            return Err(Error::NotApproved);
        }
        if !fits_bound(&personal_data_hash, self.max_hash_length) || !fits_bound(&data_hash, self.max_hash_length) {
            return Err(Error::BoundsOverflow);
        }
        self.data.insert(patient, Patients { personal_data_hash, data_hash });
        Ok(Event::DataUpdated { requester, patient_account_id: patient })
    }

    /// The medical data of `patient`, for an approved `requester`.
    pub fn read(&self, patient: u64, requester: u64) -> (res: Result<Vec<u8>, Error>)
        requires
            self.wf(),
        ensures
            match res {
                Ok(v) => self.read_result(patient, requester) == Ok::<Seq<u8>, Error>(v@),
                Err(e) => self.read_result(patient, requester) == Err::<Seq<u8>, Error>(e),
            },
    {
        if !self.ledger.is_approved(patient, requester) {
            return Err(Error::NotApproved);
        }
        match self.data.get(&patient) {
            Some(p) => match &p.data_hash {
                Some(v) => Ok(copy_bytes(v)),
                None => Err(Error::NoData),
            },
            None => Err(Error::NoData),
        }
    }
}

impl Pallet {
    /// Registers the signing account as a patient.
    pub fn register_patient_self(
        &mut self,
        origin: Origin,
        personal_data_hash: Option<Vec<u8>>,
        data_hash: Option<Vec<u8>>,
    ) -> (res: Result<Event, Error>)
        requires
            old(self).wf(),
        ensures
            final(self).wf(),
            final(self).same_links(old(self)),
            match signer(origin) {
                Err(e) => res == Err::<Event, Error>(e) && final(self).data() == old(self).data(),
                Ok(a) => res == old(self).register_result(a, personal_data_hash, data_hash)
                    && final(self).data() == (if res is Ok {
                        old(self).data().insert(a, Patients { personal_data_hash, data_hash })
                    } else {
                        old(self).data()
                    }),
            },
    {
        let sender = match check_signed(origin) {
            Ok(a) => a,
            Err(e) => {
                return Err(e);
            },
        };
        self.register(sender, personal_data_hash, data_hash)
    }

    /// Registers `patient_account_id` on behalf of a signer holding the
    /// doctor role.
    pub fn register_patient(
        &mut self,
        origin: Origin,
        roles: &access::Pallet,
        patient_account_id: u64,
        personal_data_hash: Option<Vec<u8>>,
        data_hash: Option<Vec<u8>>,
    ) -> (res: Result<Event, Error>)
        requires
            old(self).wf(),
            roles.wf(),
        ensures
            final(self).wf(),
            final(self).same_links(old(self)),
            match role_gate(*roles, origin) {
                Err(e) => res == Err::<Event, Error>(e) && final(self).data() == old(self).data(),
                Ok(_) => res == old(self).register_result(patient_account_id, personal_data_hash, data_hash)
                    && final(self).data() == (if res is Ok {
                        old(self).data().insert(patient_account_id, Patients { personal_data_hash, data_hash })
                    } else {
                        old(self).data()
                    }),
            },
    {
        match check_role(roles, origin) {
            Ok(_) => {},
            Err(e) => {
                return Err(e);
            },
        }
        self.register(patient_account_id, personal_data_hash, data_hash)
    }

    /// The signer, holding the doctor role, asks for the record of
    /// `patient_account_id`; the request is processed at `position` in `unit`.
    pub fn request_patient_data(
        &mut self,
        origin: Origin,
        roles: &access::Pallet,
        patient_account_id: u64,
        unit: OrderingUnit,
        position: u32,
    ) -> (res: Result<Event, Error>)
        requires
            old(self).wf(),
            roles.wf(),
        ensures
            final(self).wf(),
            final(self).same_data(old(self)),
            match role_gate(*roles, origin) {
                Err(e) => res == Err::<Event, Error>(e) && final(self).links() == old(self).links(),
                Ok(a) => res == old(self).request_result(
                    a,
                    patient_account_id,
                    correlation_id(unit.height, unit.seed, position) as u128,
                ) && final(self).links() == old(self).links_after_request(
                    a,
                    patient_account_id,
                    correlation_id(unit.height, unit.seed, position) as u128,
                ),
            },
    {
        let sender = match check_role(roles, origin) {
            Ok(a) => a,
            Err(e) => {
                return Err(e);
            },
        };
        self.request(sender, patient_account_id, unit, position)
    }

    /// The signing patient approves the pending request of `requester`.
    pub fn approve_request(&mut self, origin: Origin, requester: u64) -> (res: Result<Event, Error>)
        requires
            old(self).wf(),
        ensures
            final(self).wf(),
            final(self).same_data(old(self)),
            match signer(origin) {
                Err(e) => res == Err::<Event, Error>(e) && final(self).links() == old(self).links(),
                Ok(a) => res == old(self).approve_result(a, requester)
                    && final(self).links() == after_approve(old(self).links(), old(self).max_list_len(), a, requester),
            },
    {
        let sender = match check_signed(origin) {
            Ok(a) => a,
            Err(e) => {
                return Err(e);
            },
        };
        self.approve(sender, requester)
    }

    /// The signing patient withdraws the request or the approval of
    /// `requester`.
    pub fn revoke_access(&mut self, origin: Origin, requester: u64) -> (res: Result<(), Error>)
        requires
            old(self).wf(),
        ensures
            final(self).wf(),
            final(self).same_data(old(self)),
            match signer(origin) {
                Err(e) => res == Err::<(), Error>(e) && final(self).links() == old(self).links(),
                Ok(a) => res == (match revoke_result(old(self).links(), a, requester) {
                    Ok(_) => Ok::<(), Error>(()),
                    Err(e) => Err(ledger_error(e)),
                }) && final(self).links() == after_revoke(old(self).links(), a, requester),
            },
    {
        let sender = match check_signed(origin) {
            Ok(a) => a,
            Err(e) => {
                return Err(e);
            },
        };
        self.revoke(sender, requester)
    }

    /// The signer, holding the doctor role and approved by
    /// `patient_account_id`, replaces that patient's record.
    pub fn update_patient_data(
        &mut self,
        origin: Origin,
        roles: &access::Pallet,
        patient_account_id: u64,
        data_hash: Option<Vec<u8>>,
        personal_data_hash: Option<Vec<u8>>,
    ) -> (res: Result<Event, Error>)
        requires
            old(self).wf(),
            roles.wf(),
        ensures
            final(self).wf(),
            final(self).same_links(old(self)),
            match role_gate(*roles, origin) {
                Err(e) => res == Err::<Event, Error>(e) && final(self).data() == old(self).data(),
                Ok(a) => res == old(self).update_result(patient_account_id, a, data_hash, personal_data_hash)
                    && final(self).data() == (if res is Ok {
                        old(self).data().insert(patient_account_id, Patients { personal_data_hash, data_hash })
                    } else {
                        old(self).data()
                    }),
            },
    {
        let requester = match check_role(roles, origin) {
            Ok(a) => a,
            Err(e) => {
                return Err(e);
            },
        };
        self.update(patient_account_id, requester, data_hash, personal_data_hash)
    }

    /// The signer reads the medical data of `patient_account_id`, as an
    /// approved requester.
    pub fn read_patient_data(&self, origin: Origin, patient_account_id: u64) -> (res: Result<Vec<u8>, Error>)
        requires
            self.wf(),
        ensures
            match signer(origin) {
                Err(e) => res == Err::<Vec<u8>, Error>(e),
                Ok(a) => match res {
                    Ok(v) => self.read_result(patient_account_id, a) == Ok::<Seq<u8>, Error>(v@),
                    Err(e) => self.read_result(patient_account_id, a) == Err::<Seq<u8>, Error>(e),
                },
            },
    {
        let sender = match check_signed(origin) {
            Ok(a) => a,
            Err(e) => {
                return Err(e);
            },
        };
        self.read(patient_account_id, sender)
    }

    /// The requesters waiting on `patient`.
    pub fn request_list(&self, patient: u64) -> (v: Vec<u64>)
        ensures
            v@ == list_of(self.links(), ListKind::OwnerPending, patient),
    {
        self.ledger.accounts(ListKind::OwnerPending, patient)
    }

    /// The requesters `patient` has approved.
    pub fn approved_request_list(&self, patient: u64) -> (v: Vec<u64>)
        ensures
            v@ == list_of(self.links(), ListKind::OwnerApproved, patient),
    {
        self.ledger.accounts(ListKind::OwnerApproved, patient)
    }

    /// The patients `requester` is waiting on.
    pub fn requests_made(&self, requester: u64) -> (v: Vec<u64>)
        ensures
            v@ == list_of(self.links(), ListKind::RequesterPending, requester),
    {
        self.ledger.accounts(ListKind::RequesterPending, requester)
    }

    /// The patients that have approved `requester`.
    pub fn approvals_received(&self, requester: u64) -> (v: Vec<u64>)
        ensures
            v@ == list_of(self.links(), ListKind::RequesterApproved, requester),
    {
        self.ledger.accounts(ListKind::RequesterApproved, requester)
    }
}

/// In every reachable state, no (patient, requester) pair is both pending
/// and approved.
pub proof fn lemma_pair_in_one_state(p: Pallet, patient: u64, requester: u64)
    requires
        p.wf(),
    ensures
        !(is_pending(p.links(), patient, requester) && is_approved(p.links(), patient, requester)),
{
    lemma_never_pending_and_approved(p.links(), p.max_list_len(), patient, requester);
}

/// A requester that the patient has not approved can neither read nor update
/// the record: both fail with `NotApproved`, also while its request is pending.
pub proof fn lemma_unapproved_cannot_touch(
    p: Pallet,
    patient: u64,
    requester: u64,
    data_hash: Option<Vec<u8>>,
    personal_data_hash: Option<Vec<u8>>,
)
    requires
        p.wf(),
        is_pending(p.links(), patient, requester) || !is_approved(p.links(), patient, requester),
    ensures
        p.read_result(patient, requester) == Err::<Seq<u8>, Error>(Error::NotApproved),
        p.update_result(patient, requester, data_hash, personal_data_hash) == Err::<Event, Error>(Error::NotApproved),
{
    lemma_never_pending_and_approved(p.links(), p.max_list_len(), patient, requester);
}

/// A signer that holds the doctor role but is not approved by the patient
/// passes the role check and is then refused with `NotApproved`, also while
/// its request is pending; the record stays as it was.
pub proof fn lemma_unapproved_doctor_cannot_update(
    p: Pallet,
    roles: access::Pallet,
    a: u64,
    patient: u64,
    data_hash: Option<Vec<u8>>,
    personal_data_hash: Option<Vec<u8>>,
)
    requires
        p.wf(),
        roles.wf(),
        roles.holds(doctor_role(), a),
        is_pending(p.links(), patient, a) || !is_approved(p.links(), patient, a),
    ensures
        role_gate(roles, Origin::Signed(a)) == Ok::<u64, Error>(a),
        p.update_result(patient, a, data_hash, personal_data_hash) == Err::<Event, Error>(Error::NotApproved),
{
    access::lemma_holder_passes(roles, doctor_role(), a);
    lemma_never_pending_and_approved(p.links(), p.max_list_len(), patient, a);
}

/// A copy of `v`.
pub fn copy_bytes(v: &Vec<u8>) -> (r: Vec<u8>)
    ensures
        r@ == v@,
{
    let mut r: Vec<u8> = Vec::new();
    let mut i: usize = 0;
    while i < v.len()
        invariant
            i <= v@.len(),
            r@ == v@.subrange(0, i as int),
        decreases v@.len() - i,
    {
        r.push(v[i]);
        i = i + 1;
        assert(r@ =~= v@.subrange(0, i as int));
    }
    assert(v@.subrange(0, i as int) =~= v@);
    r
}

} // verus!
