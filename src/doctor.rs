//! Registration of requesting accounts (doctors), with an optional bounded
//! payload each, and the deployment bounds shared by the record pallets.

use vstd::prelude::*;
use std::collections::HashMap;
use crate::origin::{ensure_signed, Origin};

verus! {

broadcast use vstd::std_specs::hash::group_hash_axioms;

/// The bounds fixed at deployment.
#[derive(Clone, Copy, Debug, PartialEq, Eq, Structural)]
pub struct Config {
    /// The longest payload, in bytes.
    pub max_hash_length: u32,
    /// The longest pending or approved list of any account.
    pub max_list_length: u32,
}

/// A doctor's profile: the reference to their personal data, if given.
#[derive(Debug, PartialEq, Eq)]
pub struct Doctors {
    pub personal_data_hash: Option<Vec<u8>>,
}

impl Default for Doctors {
    fn default() -> (d: Self)
        ensures
            d.personal_data_hash is None,
    {
        Doctors { personal_data_hash: None }
    }
}

#[derive(Clone, Copy, Debug, PartialEq, Eq)]
pub enum Event {
    /// A doctor registered.
    DoctorDataUpdated { doctor_account_id: u64 },
}

#[derive(Clone, Copy, Debug, PartialEq, Eq, Structural)]
pub enum Error {
    AlreadyRegistered,
    /// A payload is longer than the configured bound.
    BoundsOverflow,
    /// The operation was not signed.
    BadOrigin,
}

/// Whether an optional payload is within `max` bytes.
pub open spec fn fits(b: Option<Vec<u8>>, max: nat) -> bool {
    match b {
        Some(v) => v@.len() <= max,
        None => true,
    }
}

/// Whether an optional payload is within `max` bytes.
pub fn fits_bound(b: &Option<Vec<u8>>, max: u32) -> (r: bool)
    ensures
        r == fits(*b, max as nat),
{
    match b {
        Some(v) => v.len() as u64 <= max as u64,
        None => true,
    }
}

/// The registry of doctors.
pub struct Pallet {
    data: HashMap<u64, Doctors>,
    max_hash_length: u32,
}

impl Pallet {
    /// The profile of each registered doctor.
    pub closed spec fn data(&self) -> Map<u64, Doctors> {
        self.data@
    }

    /// The payload bound.
    pub closed spec fn max_hash_len(&self) -> nat {
        self.max_hash_length as nat
    }

    pub open spec fn is_registered(&self, a: u64) -> bool {
        self.data().contains_key(a)
    }

    /// What `register_self` answers.
    pub open spec fn register_result(&self, a: u64, personal_data_hash: Option<Vec<u8>>) -> Result<Event, Error> {
        if !fits(personal_data_hash, self.max_hash_len()) {
            Err(Error::BoundsOverflow)
        } else if self.is_registered(a) {
            Err(Error::AlreadyRegistered)
        } else {
            Ok(Event::DoctorDataUpdated { doctor_account_id: a })
        }
    }

    /// A registry with no doctors, under the bounds of `config`.
    pub fn new(config: &Config) -> (p: Self)
        ensures
            p.data() == Map::<u64, Doctors>::empty(),
            p.max_hash_len() == config.max_hash_length,
    {
        Pallet { data: HashMap::new(), max_hash_length: config.max_hash_length }
    }

    /// Whether `a` is a registered doctor.
    pub fn contains(&self, a: u64) -> (b: bool)
        ensures
            b == self.is_registered(a),
    {
        self.data.contains_key(&a)
    }

    /// Registers `doctor_account_id` with its payload; a second registration
    /// is rejected.
    pub fn register_self(&mut self, doctor_account_id: u64, personal_data_hash: Option<Vec<u8>>) -> (res: Result<Event, Error>)
        ensures
            final(self).max_hash_len() == old(self).max_hash_len(),
            res == old(self).register_result(doctor_account_id, personal_data_hash),
            res is Err ==> final(self).data() == old(self).data(),
            res is Ok ==> final(self).data() == old(self).data().insert(doctor_account_id, Doctors { personal_data_hash }),
    {
        if !fits_bound(&personal_data_hash, self.max_hash_length) {
            return Err(Error::BoundsOverflow);
        }
        if self.data.contains_key(&doctor_account_id) {
            return Err(Error::AlreadyRegistered);
        }
        self.data.insert(doctor_account_id, Doctors { personal_data_hash });
        Ok(Event::DoctorDataUpdated { doctor_account_id })
    }

    /// Registers the signing account as a doctor.
    pub fn register(&mut self, origin: Origin, personal_data_hash: Option<Vec<u8>>) -> (res: Result<Event, Error>)
        ensures
            final(self).max_hash_len() == old(self).max_hash_len(),
            match origin {
                Origin::Signed(a) => res == old(self).register_result(a, personal_data_hash),
                _ => res == Err::<Event, Error>(Error::BadOrigin),
            },
            res is Err ==> final(self).data() == old(self).data(),
            res is Ok ==> exists|a: u64| origin == Origin::Signed(a)
                && final(self).data() == old(self).data().insert(a, Doctors { personal_data_hash }),
    {
        let sender = match ensure_signed(origin) {
            Some(a) => a,
            None => {
                return Err(Error::BadOrigin);
            },
        };
        self.register_self(sender, personal_data_hash)
    }
}

} // verus!
