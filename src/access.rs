//! The role registry: known roles, and which accounts hold each of them.

use vstd::prelude::*;
use crate::origin::{ensure_root, ensure_signed, Origin};

verus! {

/// The (role, account) flag: whether the account currently holds the role.
#[derive(Clone, Copy, Debug, PartialEq, Eq)]
pub struct Membership {
    pub role: [u8; 32],
    pub user: u64,
    pub active: bool,
}

#[derive(Clone, Copy, Debug, PartialEq, Eq)]
pub enum Event {
    RoleRegistered { role: [u8; 32] },
    RoleAssigned { user: u64, role: [u8; 32] },
    RoleRevoked { user: u64, role: [u8; 32] },
}

#[derive(Clone, Copy, Debug, PartialEq, Eq, Structural)]
pub enum Error {
    AlreadyHasRole,
    InvalidRole,
    NotAssigned,
    /// The operation came from an origin that may not perform it.
    BadOrigin,
}

pub open spec fn is_entry_of(m: Membership, role: [u8; 32], user: u64) -> bool {
    m.role == role && m.user == user
}

/// Whether `user` holds `role` in the flags `ms`: absent and cleared flags
/// both count as not held.
pub open spec fn holds_in(ms: Seq<Membership>, role: [u8; 32], user: u64) -> bool {
    exists|i: int| 0 <= i < ms.len() && is_entry_of(#[trigger] ms[i], role, user) && ms[i].active
}

/// At most one flag per (role, account).
pub open spec fn entries_unique(ms: Seq<Membership>) -> bool {
    forall|i: int, j: int|
        0 <= i < ms.len() && 0 <= j < ms.len() && #[trigger] ms[i].role == #[trigger] ms[j].role
            && ms[i].user == ms[j].user ==> i == j
}

/// Every flag names a registered role.
pub open spec fn flags_registered(roles: Seq<[u8; 32]>, ms: Seq<Membership>) -> bool {
    forall|i: int| 0 <= i < ms.len() ==> roles.contains(#[trigger] ms[i].role)
}

/// Two flags of one (role, account) in unique flags are the same flag.
pub proof fn lemma_same_entry(ms: Seq<Membership>, i: int, j: int)
    requires
        entries_unique(ms),
        0 <= i < ms.len(),
        0 <= j < ms.len(),
        is_entry_of(ms[i], ms[j].role, ms[j].user),
    ensures
        i == j,
{
    assert(ms[i].role == ms[j].role);
}

/// Setting the flag at `i` changes whether its own (role, account) is held,
/// and nothing else.
pub proof fn lemma_flag_update(ms: Seq<Membership>, i: int, active: bool)
    requires
        entries_unique(ms),
        0 <= i < ms.len(),
    ensures
        ({
            let t = ms.update(i, Membership { role: ms[i].role, user: ms[i].user, active });
            &&& entries_unique(t)
            &&& forall|r: [u8; 32], u: u64| #[trigger] holds_in(t, r, u) == if r == ms[i].role && u == ms[i].user {
                active
            } else {
                holds_in(ms, r, u)
            }
        }),
{
    let t = ms.update(i, Membership { role: ms[i].role, user: ms[i].user, active });
    assert forall|p: int, q: int|
        0 <= p < t.len() && 0 <= q < t.len() && #[trigger] t[p].role == #[trigger] t[q].role
            && t[p].user == t[q].user implies p == q by {
        lemma_same_entry(ms, p, q);
    }
    assert forall|r: [u8; 32], u: u64| #[trigger] holds_in(t, r, u) == if r == ms[i].role && u == ms[i].user {
        active
    } else {
        holds_in(ms, r, u)
    } by {
        if r == ms[i].role && u == ms[i].user {
            if active {
                assert(is_entry_of(t[i], r, u) && t[i].active);
            }
            if holds_in(t, r, u) {
                let j = choose|j: int| 0 <= j < t.len() && is_entry_of(#[trigger] t[j], r, u) && t[j].active;
                lemma_same_entry(ms, j, i);
            }
        } else {
            if holds_in(ms, r, u) {
                let j = choose|j: int| 0 <= j < ms.len() && is_entry_of(#[trigger] ms[j], r, u) && ms[j].active;
                assert(is_entry_of(t[j], r, u) && t[j].active);
            }
            if holds_in(t, r, u) {
                let j = choose|j: int| 0 <= j < t.len() && is_entry_of(#[trigger] t[j], r, u) && t[j].active;
                assert(is_entry_of(ms[j], r, u) && ms[j].active);
            }
        }
    }
}

/// Adding a held flag for a (role, account) that had none makes it held,
/// and nothing else.
pub proof fn lemma_flag_push(ms: Seq<Membership>, role: [u8; 32], user: u64)
    requires
        entries_unique(ms),
        forall|j: int| 0 <= j < ms.len() ==> !is_entry_of(#[trigger] ms[j], role, user),
    ensures
        ({
            let t = ms.push(Membership { role, user, active: true });
            &&& entries_unique(t)
            &&& forall|r: [u8; 32], u: u64| #[trigger] holds_in(t, r, u) == (holds_in(ms, r, u) || (r == role && u == user))
        }),
{
    let t = ms.push(Membership { role, user, active: true });
    let n = ms.len() as int;
    assert forall|p: int, q: int|
        0 <= p < t.len() && 0 <= q < t.len() && #[trigger] t[p].role == #[trigger] t[q].role
            && t[p].user == t[q].user implies p == q by {
        if p < n && q < n {
            lemma_same_entry(ms, p, q);
        } else if p < n {
            assert(is_entry_of(ms[p], role, user));
        } else if q < n {
            assert(is_entry_of(ms[q], role, user));
        }
    }
    assert forall|r: [u8; 32], u: u64| #[trigger] holds_in(t, r, u) == (holds_in(ms, r, u) || (r == role && u == user)) by {
        if holds_in(ms, r, u) {
            let j = choose|j: int| 0 <= j < ms.len() && is_entry_of(#[trigger] ms[j], r, u) && ms[j].active;
            assert(is_entry_of(t[j], r, u) && t[j].active);
        }
        if r == role && u == user {
            assert(is_entry_of(t[n], r, u) && t[n].active);
        }
        if holds_in(t, r, u) && !(r == role && u == user) {
            let j = choose|j: int| 0 <= j < t.len() && is_entry_of(#[trigger] t[j], r, u) && t[j].active;
            assert(is_entry_of(ms[j], r, u) && ms[j].active);
        }
    }
}

/// Whether two roles are the same 32 bytes.
pub fn same_role(a: &[u8; 32], b: &[u8; 32]) -> (r: bool)
    ensures
        r == (*a == *b),
{
    let mut i: usize = 0;
    while i < 32
        invariant
            i <= 32,
            forall|j: int| 0 <= j < i ==> a[j] == b[j],
        decreases 32 - i,
    {
        if a[i] != b[i] {
            return false;
        }
        i = i + 1;
    }
    assert(a@ =~= b@);
    proof {
        broadcast use vstd::array::group_array_axioms;
        assert(*a =~= *b);
    }
    true
}

/// The role registry.
pub struct Pallet {
    roles: Vec<[u8; 32]>,
    members: Vec<Membership>,
}

impl Pallet {
    /// The registered roles.
    pub closed spec fn roles(&self) -> Seq<[u8; 32]> {
        self.roles@
    }

    /// The (role, account) flags.
    pub closed spec fn members(&self) -> Seq<Membership> {
        self.members@
    }

    /// One flag per (role, account), and only for registered roles.
    pub open spec fn wf(&self) -> bool {
        entries_unique(self.members()) && flags_registered(self.roles(), self.members())
    }

    pub open spec fn role_known(&self, role: [u8; 32]) -> bool {
        self.roles().contains(role)
    }

    pub open spec fn holds(&self, role: [u8; 32], user: u64) -> bool {
        holds_in(self.members(), role, user)
    }

    /// A registry with no roles.
    pub fn new() -> (p: Self)
        ensures
            p.wf(),
            forall|role: [u8; 32]| !p.role_known(role),
            forall|role: [u8; 32], user: u64| !p.holds(role, user),
            p.members() == Seq::<Membership>::empty(),
    {
        Pallet { roles: Vec::new(), members: Vec::new() }
    }

    /// Whether `role` is registered.
    pub fn is_registered(&self, role: &[u8; 32]) -> (b: bool)
        ensures
            b == self.role_known(*role),
    {
        let mut i: usize = 0;
        while i < self.roles.len()
            invariant
                i <= self.roles@.len(),
                forall|j: int| 0 <= j < i ==> self.roles@[j] != *role,
            decreases self.roles@.len() - i,
        {
            if same_role(&self.roles[i], role) {
                assert(self.roles@[i as int] == *role);
                return true;
            }
            i = i + 1;
        }
        false
    }

    /// The position of the flag of (`role`, `user`), if it has one.
    fn find_member(&self, role: &[u8; 32], user: u64) -> (res: Option<usize>)
        ensures
            match res {
                Some(i) => i < self.members@.len() && is_entry_of(self.members@[i as int], *role, user),
                None => forall|j: int| 0 <= j < self.members@.len() ==> !is_entry_of(#[trigger] self.members@[j], *role, user),
            },
    {
        let mut i: usize = 0;
        while i < self.members.len()
            invariant
                i <= self.members@.len(),
                forall|j: int| 0 <= j < i ==> !is_entry_of(#[trigger] self.members@[j], *role, user),
            decreases self.members@.len() - i,
        {
            let m = self.members[i];
            if m.user == user && same_role(&m.role, role) {
                return Some(i);
            }
            i = i + 1;
        }
        None
    }

    /// Whether `user` holds `role`.
    pub fn is_member(&self, role: &[u8; 32], user: u64) -> (b: bool)
        requires
            self.wf(),
        ensures
            b == self.holds(*role, user),
    {
        match self.find_member(role, user) {
            Some(i) => {
                proof {
                    let ms = self.members@;
                    if self.holds(*role, user) {
                        let j = choose|j: int| 0 <= j < ms.len() && is_entry_of(#[trigger] ms[j], *role, user) && ms[j].active;
                        lemma_same_entry(ms, j, i as int);
                    }
                    if ms[i as int].active {
                        assert(is_entry_of(ms[i as int], *role, user));
                    }
                }
                self.members[i].active
            },
            None => false,
        }
    }

    /// Adds `role` to the registered roles; registering a known role again
    /// changes nothing.
    fn add_role(&mut self, role: [u8; 32]) -> (e: Event)
        requires
            old(self).wf(),
        ensures
            final(self).wf(),
            e == (Event::RoleRegistered { role }),
            forall|r: [u8; 32]| #[trigger] final(self).role_known(r) == (old(self).role_known(r) || r == role),
            final(self).members() == old(self).members(),
    {
        if !self.is_registered(&role) {
            let ghost before = self.roles@;
            self.roles.push(role);
            proof {
                assert forall|r: [u8; 32]| #[trigger] self.roles@.contains(r) == (before.contains(r) || r == role) by {
                    if before.contains(r) {
                        let j = choose|j: int| 0 <= j < before.len() && before[j] == r;
                        assert(self.roles@[j] == r);
                    }
                    if r == role {
                        assert(self.roles@[before.len() as int] == r);
                    }
                    if self.roles@.contains(r) && r != role {
                        let j = choose|j: int| 0 <= j < self.roles@.len() && self.roles@[j] == r;
                        assert(before[j] == r);
                    }
                }
                assert forall|i: int| 0 <= i < self.members@.len() implies self.roles@.contains(#[trigger] self.members@[i].role) by {
                    assert(before.contains(self.members@[i].role));
                }
            }
        }
        Event::RoleRegistered { role }
    }

    /// Registers `role`; only the privileged origin may. Registering a known
    /// role again changes nothing.
    pub fn register_role(&mut self, origin: Origin, role: [u8; 32]) -> (res: Result<Event, Error>)
        requires
            old(self).wf(),
        ensures
            final(self).wf(),
            final(self).members() == old(self).members(),
            origin != Origin::Root ==> res == Err::<Event, Error>(Error::BadOrigin) && final(self).roles() == old(self).roles(),
            origin == Origin::Root ==> res == Ok::<Event, Error>(Event::RoleRegistered { role }),
            origin == Origin::Root ==> forall|r: [u8; 32]|
                #[trigger] final(self).role_known(r) == (old(self).role_known(r) || r == role),
    {
        if !ensure_root(origin) {
            return Err(Error::BadOrigin);
        }
        Ok(self.add_role(role))
    }

    /// Whether `self` and `other` hold the same roles and flags.
    pub open spec fn unchanged_from(&self, other: &Self) -> bool {
        self.roles() == other.roles() && self.members() == other.members()
    }

    /// What `assign_role` answers.
    pub open spec fn assign_result(&self, user: u64, role: [u8; 32]) -> Result<Event, Error> {
        if !self.role_known(role) {
            Err(Error::InvalidRole)
        } else if self.holds(role, user) {
            Err(Error::AlreadyHasRole)
        } else {
            Ok(Event::RoleAssigned { user, role })
        }
    }

    /// What `revoke_role` answers.
    pub open spec fn revoke_result(&self, user: u64, role: [u8; 32]) -> Result<Event, Error> {
        if !self.role_known(role) {
            Err(Error::InvalidRole)
        } else if !self.holds(role, user) {
            Err(Error::NotAssigned)
        } else {
            Ok(Event::RoleRevoked { user, role })
        }
    }

    /// What `validate_role` answers.
    pub open spec fn validate_result(&self, user: u64, role: [u8; 32]) -> Result<(), Error> {
        if !self.role_known(role) {
            Err(Error::InvalidRole)
        } else if !self.holds(role, user) {
            Err(Error::NotAssigned)
        } else {
            Ok(())
        }
    }

    /// Sets the flag of (`role`, `user`) to held.
    pub fn assign_role(&mut self, user: u64, role: [u8; 32]) -> (res: Result<Event, Error>)
        requires
            old(self).wf(),
        ensures
            final(self).wf(),
            res == old(self).assign_result(user, role),
            res is Err ==> final(self).unchanged_from(old(self)),
            res is Ok ==> final(self).roles() == old(self).roles(),
            res is Ok ==> forall|r: [u8; 32], u: u64|
                #[trigger] final(self).holds(r, u) == (old(self).holds(r, u) || (r == role && u == user)),
    {
        if !self.is_registered(&role) {
            return Err(Error::InvalidRole);
        }
        if self.is_member(&role, user) {
            return Err(Error::AlreadyHasRole);
        }
        let ghost ms = self.members@;
        let ghost rs = self.roles@;
        let x = Membership { role, user, active: true };
        match self.find_member(&role, user) {
            Some(i) => {
                self.members.set(i, x);
                proof {
                    lemma_flag_update(ms, i as int, true);
                }
            },
            None => {
                self.members.push(x);
                proof {
                    lemma_flag_push(ms, role, user);
                }
            },
        }
        proof {
            assert forall|j: int| 0 <= j < self.members@.len() implies rs.contains(#[trigger] self.members@[j].role) by {
                if self.members@[j].role != role {
                    assert(self.members@[j] == ms[j]);
                }
            }
        }
        Ok(Event::RoleAssigned { user, role })
    }

    /// Clears the flag of (`role`, `user`).
    pub fn revoke_role(&mut self, user: u64, role: [u8; 32]) -> (res: Result<Event, Error>)
        requires
            old(self).wf(),
        ensures
            final(self).wf(),
            res == old(self).revoke_result(user, role),
            res is Err ==> final(self).unchanged_from(old(self)),
            res is Ok ==> final(self).roles() == old(self).roles(),
            res is Ok ==> forall|r: [u8; 32], u: u64|
                #[trigger] final(self).holds(r, u) == (old(self).holds(r, u) && !(r == role && u == user)),
    {
        if !self.is_registered(&role) {
            return Err(Error::InvalidRole);
        }
        if !self.is_member(&role, user) {
            return Err(Error::NotAssigned);
        }
        let ghost ms = self.members@;
        let ghost rs = self.roles@;
        let i = match self.find_member(&role, user) {
            Some(i) => i,
            None => {
                proof {
                    let j = choose|j: int| 0 <= j < ms.len() && is_entry_of(#[trigger] ms[j], role, user) && ms[j].active;
                }
                return Err(Error::NotAssigned);
            },
        };
        self.members.set(i, Membership { role, user, active: false });
        proof {
            lemma_flag_update(ms, i as int, false);
            assert forall|j: int| 0 <= j < self.members@.len() implies rs.contains(#[trigger] self.members@[j].role) by {
                assert(self.members@[j].role == ms[j].role);
            }
        }
        Ok(Event::RoleRevoked { user, role })
    }

    /// Succeeds when `role` is registered and `user` holds it.
    pub fn validate_role(&self, user: u64, role: [u8; 32]) -> (res: Result<(), Error>)
        requires
            self.wf(),
        ensures
            res == self.validate_result(user, role),
    {
        if !self.is_registered(&role) {
            return Err(Error::InvalidRole);
        }
        if !self.is_member(&role, user) {
            return Err(Error::NotAssigned);
        }
        Ok(())
    }

    /// Gives `user` the role `new_role`; only the privileged origin may.
    pub fn assign(&mut self, origin: Origin, user: u64, new_role: [u8; 32]) -> (res: Result<Event, Error>)
        requires
            old(self).wf(),
        ensures
            final(self).wf(),
            origin != Origin::Root ==> res == Err::<Event, Error>(Error::BadOrigin),
            origin == Origin::Root ==> res == old(self).assign_result(user, new_role),
            res is Err ==> final(self).unchanged_from(old(self)),
            res is Ok ==> final(self).roles() == old(self).roles(),
            res is Ok ==> forall|r: [u8; 32], u: u64|
                #[trigger] final(self).holds(r, u) == (old(self).holds(r, u) || (r == new_role && u == user)),
    {
        if !ensure_root(origin) {
            return Err(Error::BadOrigin);
        }
        self.assign_role(user, new_role)
    }

    /// Takes the role `new_role` from `user`; only the privileged origin may.
    pub fn revoke(&mut self, origin: Origin, user: u64, new_role: [u8; 32]) -> (res: Result<Event, Error>)
        requires
            old(self).wf(),
        ensures
            final(self).wf(),
            origin != Origin::Root ==> res == Err::<Event, Error>(Error::BadOrigin),
            origin == Origin::Root ==> res == old(self).revoke_result(user, new_role),
            res is Err ==> final(self).unchanged_from(old(self)),
            res is Ok ==> final(self).roles() == old(self).roles(),
            res is Ok ==> forall|r: [u8; 32], u: u64|
                #[trigger] final(self).holds(r, u) == (old(self).holds(r, u) && !(r == new_role && u == user)),
    {
        if !ensure_root(origin) {
            return Err(Error::BadOrigin);
        }
        self.revoke_role(user, new_role)
    }

    /// Succeeds when a signed origin asks and `user` holds `new_role`.
    pub fn has_role(&self, origin: Origin, user: u64, new_role: [u8; 32]) -> (res: Result<(), Error>)
        requires
            self.wf(),
        ensures
            origin is Signed ==> res == self.validate_result(user, new_role),
            !(origin is Signed) ==> res == Err::<(), Error>(Error::BadOrigin),
    {
        match ensure_signed(origin) {
            Some(_) => self.validate_role(user, new_role),
            None => Err(Error::BadOrigin),
        }
    }
}

/// In a well-formed registry, an account that holds a role passes the role
/// check for it: a held role is always a registered one.
pub proof fn lemma_holder_passes(p: Pallet, role: [u8; 32], user: u64)
    requires
        p.wf(),
        p.holds(role, user),
    ensures
        p.role_known(role),
        p.validate_result(user, role) == Ok::<(), Error>(()),
{
    let ms = p.members();
    let j = choose|j: int| 0 <= j < ms.len() && is_entry_of(#[trigger] ms[j], role, user) && ms[j].active;
    assert(p.roles().contains(ms[j].role));
}

/// The roles registered when the registry is first built.
pub struct GenesisConfig {
    pub roles: Vec<[u8; 32]>,
}

impl Default for GenesisConfig {
    fn default() -> (g: Self)
        ensures
            g.roles@ == Seq::<[u8; 32]>::empty(),
    {
        GenesisConfig { roles: Vec::new() }
    }
}

impl GenesisConfig {
    /// A registry that knows exactly the configured roles and holds no flags.
    pub fn build(&self) -> (p: Pallet)
        ensures
            p.wf(),
            forall|role: [u8; 32]| #[trigger] p.role_known(role) == self.roles@.contains(role),
            forall|role: [u8; 32], user: u64| !p.holds(role, user),
    {
        let mut p = Pallet::new();
        let mut i: usize = 0;
        while i < self.roles.len()
            invariant
                i <= self.roles@.len(),
                p.wf(),
                p.members() == Seq::<Membership>::empty(),
                forall|role: [u8; 32]| #[trigger] p.role_known(role) == self.roles@.subrange(0, i as int).contains(role),
            decreases self.roles@.len() - i,
        {
            let ghost before = self.roles@.subrange(0, i as int);
            p.add_role(self.roles[i]);
            proof {
                let after = self.roles@.subrange(0, i + 1);
                assert(after =~= before.push(self.roles@[i as int]));
                assert forall|role: [u8; 32]| #[trigger] after.contains(role) == (before.contains(role) || role == self.roles@[i as int]) by {
                    if before.contains(role) {
                        let j = choose|j: int| 0 <= j < before.len() && before[j] == role;
                        assert(after[j] == role);
                    }
                    if role == self.roles@[i as int] {
                        assert(after[i as int] == role);
                    }
                    if after.contains(role) && role != self.roles@[i as int] {
                        let j = choose|j: int| 0 <= j < after.len() && after[j] == role;
                        assert(before[j] == role);
                    }
                }
            }
            i = i + 1;
        }
        assert(self.roles@.subrange(0, i as int) =~= self.roles@);
        p
    }
}

} // verus!
