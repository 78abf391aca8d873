use vstd::prelude::*;

use crate::types::{AccountId, Error, Role};

verus! {

/// What the role registry reports.
#[derive(Clone, Copy, Debug, PartialEq, Eq, Structural)]
pub enum RolesEvent {
    RoleRegistered { user: AccountId, role: Role },
    RoleUnregistered { user: AccountId },
}

/// The registry that maps each account to at most one role.
pub struct Roles {
    /// Registered accounts with their role, each account at most once.
    pub entries: Vec<(AccountId, Role)>,
    /// Every event emitted so far, oldest first.
    pub events: Vec<RolesEvent>,
}

/// The outcome of requiring `required` of an account whose role is `held`.
pub open spec fn role_check(held: Option<Role>, required: Role) -> Result<(), Error> {
    match held {
        None => Err(Error::AccountRoleNotRegistered),
        Some(r) => if r == required {
            Ok(())
        } else {
            Err(Error::IncorrectRole)
        },
    }
}

/// The outcome of forbidding `forbidden` to an account whose role is `held`.
pub open spec fn not_role_check(held: Option<Role>, forbidden: Role) -> Result<(), Error> {
    match held {
        None => Err(Error::AccountRoleNotRegistered),
        Some(r) => if r == forbidden {
            Err(Error::IncorrectRole)
        } else {
            Ok(())
        },
    }
}

impl Roles {
    /// No account is registered twice.
    pub open spec fn wf(&self) -> bool {
        forall|i: int, j: int|
            0 <= i < j < self.entries@.len() ==> self.entries@[i].0 != self.entries@[j].0
    }

    pub open spec fn is_registered(&self, who: AccountId) -> bool {
        exists|i: int| 0 <= i < self.entries@.len() && self.entries@[i].0 == who
    }

    /// The role of `who`, if any.
    pub open spec fn role_of(&self, who: AccountId) -> Option<Role> {
        if self.is_registered(who) {
            let i = choose|i: int| 0 <= i < self.entries@.len() && self.entries@[i].0 == who;
            Some(self.entries@[i].1)
        } else {
            None
        }
    }

    /// An empty registry.
    pub fn new() -> (r: Roles)
        ensures
            r.wf(),
            forall|w: AccountId| r.role_of(w) is None,
            r.events@ == Seq::<RolesEvent>::empty(),
    {
        Roles { entries: Vec::new(), events: Vec::new() }
    }

    fn position(&self, who: AccountId) -> (r: Option<usize>)
        requires
            self.wf(),
        ensures
            match r {
                Some(i) => i < self.entries@.len() && self.entries@[i as int].0 == who
                    && self.role_of(who) == Some(self.entries@[i as int].1),
                None => self.role_of(who) is None,
            },
    {
        let mut i: usize = 0;
        while i < self.entries.len()
            invariant
                self.wf(),
                i <= self.entries@.len(),
                forall|k: int| 0 <= k < i ==> self.entries@[k].0 != who,
            decreases self.entries@.len() - i,
        {
            if self.entries[i].0 == who {
                proof {
                    let j = choose|j: int|
                        0 <= j < self.entries@.len() && self.entries@[j].0 == who;
                    assert(j == i as int);
                }
                return Some(i);
            }
            i = i + 1;
        }
        None
    }

    /// The role of `who`, if any.
    pub fn role(&self, who: AccountId) -> (r: Option<Role>)
        requires
            self.wf(),
        ensures
            r == self.role_of(who),
    {
        match self.position(who) {
            Some(i) => Some(self.entries[i].1),
            None => None,
        }
    }

    /// Gives `who` the role `role`; an account that already holds a role is refused.
    pub fn register_role(&mut self, who: AccountId, role: Role) -> (r: Result<(), Error>)
        requires
            old(self).wf(),
        ensures
            final(self).wf(),
            old(self).role_of(who) is Some ==> r == Err::<(), Error>(Error::AccountAlreadyRegistered)
                && *final(self) == *old(self),
            old(self).role_of(who) is None ==> r is Ok && final(self).role_of(who) == Some(role)
                && (forall|w: AccountId| w != who ==> final(self).role_of(w) == old(self).role_of(w))
                && final(self).events@ == old(self).events@.push(
                RolesEvent::RoleRegistered { user: who, role },
            ),
    {
        match self.position(who) {
            Some(_) => Err(Error::AccountAlreadyRegistered),
            None => {
                let ghost before = self.entries@;
                self.entries.push((who, role));
                self.events.push(RolesEvent::RoleRegistered { user: who, role });
                proof {
                    let n = before.len() as int;
                    assert(self.entries@[n].0 == who);
                    assert forall|w: AccountId| w != who implies self.role_of(w) == old(self).role_of(
                        w,
                    ) by {
                        if old(self).is_registered(w) {
                            let k = choose|k: int| 0 <= k < before.len() && before[k].0 == w;
                            assert(self.entries@[k].0 == w);
                        }
                        if self.is_registered(w) {
                            let k = choose|k: int|
                                0 <= k < self.entries@.len() && self.entries@[k].0 == w;
                            assert(before[k].0 == w);
                        }
                    }
                }
                Ok(())
            },
        }
    }

    /// Takes away the role of `who`; an account that holds none is refused.
    pub fn unregister_role(&mut self, who: AccountId) -> (r: Result<(), Error>)
        requires
            old(self).wf(),
        ensures
            final(self).wf(),
            old(self).role_of(who) is None ==> r == Err::<(), Error>(Error::AccountRoleNotRegistered)
                && *final(self) == *old(self),
            old(self).role_of(who) is Some ==> r is Ok && final(self).role_of(who) is None
                && (forall|w: AccountId| w != who ==> final(self).role_of(w) == old(self).role_of(w))
                && final(self).events@ == old(self).events@.push(
                RolesEvent::RoleUnregistered { user: who },
            ),
    {
        match self.position(who) {
            None => Err(Error::AccountRoleNotRegistered),
            Some(i) => {
                let ghost before = self.entries@;
                self.entries.remove(i);
                self.events.push(RolesEvent::RoleUnregistered { user: who });
                proof {
                    let after = self.entries@;
                    assert(after =~= before.remove(i as int));
                    assert forall|w: AccountId| w != who implies self.role_of(w) == old(self).role_of(
                        w,
                    ) by {
                        if old(self).is_registered(w) {
                            let k = choose|k: int| 0 <= k < before.len() && before[k].0 == w;
                            let k2 = if k < i { k } else { k - 1 };
                            assert(after[k2].0 == w);
                        }
                        if self.is_registered(w) {
                            let k = choose|k: int| 0 <= k < after.len() && after[k].0 == w;
                            let k2 = if k < i { k } else { k + 1 };
                            assert(before[k2].0 == w);
                        }
                    }
                    if self.is_registered(who) {
                        let k = choose|k: int| 0 <= k < after.len() && after[k].0 == who;
                        let k2 = if k < i { k } else { k + 1 };
                        assert(before[k2].0 == who);
                    }
                }
                Ok(())
            },
        }
    }

    /// Succeeds exactly when `who` holds the role `role`.
    pub fn ensure_role(&self, who: AccountId, role: Role) -> (r: Result<(), Error>)
        requires
            self.wf(),
        ensures
            r == role_check(self.role_of(who), role),
    {
        match self.role(who) {
            None => Err(Error::AccountRoleNotRegistered),
            Some(held) => if held == role {
                Ok(())
            } else {
                Err(Error::IncorrectRole)
            },
        }
    }

    /// Succeeds exactly when `who` holds a role other than `role`.
    pub fn ensure_not_role(&self, who: AccountId, role: Role) -> (r: Result<(), Error>)
        requires
            self.wf(),
        ensures
            r == not_role_check(self.role_of(who), role),
    {
        match self.role(who) {
            None => Err(Error::AccountRoleNotRegistered),
            Some(held) => if held == role {
                Err(Error::IncorrectRole)
            } else {
                Ok(())
            },
        }
    }

    /// The account `caller` registers itself with the role `role`.
    pub fn register(&mut self, caller: AccountId, role: Role) -> (r: Result<(), Error>)
        requires
            old(self).wf(),
        ensures
            final(self).wf(),
            old(self).role_of(caller) is Some ==> r == Err::<(), Error>(Error::AccountAlreadyRegistered)
                && *final(self) == *old(self),
            old(self).role_of(caller) is None ==> r is Ok && final(self).role_of(caller) == Some(role)
                && (forall|w: AccountId| w != caller ==> final(self).role_of(w) == old(self).role_of(w)),
    {
        self.register_role(caller, role)
    }

    /// The account `caller` gives up its role.
    pub fn unregister(&mut self, caller: AccountId) -> (r: Result<(), Error>)
        requires
            old(self).wf(),
        ensures
            final(self).wf(),
            old(self).role_of(caller) is None ==> r == Err::<(), Error>(Error::AccountRoleNotRegistered)
                && *final(self) == *old(self),
            old(self).role_of(caller) is Some ==> r is Ok && final(self).role_of(caller) is None
                && (forall|w: AccountId| w != caller ==> final(self).role_of(w) == old(self).role_of(w)),
    {
        self.unregister_role(caller)
    }

    /// Gives `id` any role, on the council's authority.
    pub fn register_role_governance(&mut self, id: AccountId, role: Role) -> (r: Result<(), Error>)
        requires
            old(self).wf(),
        ensures
            final(self).wf(),
            old(self).role_of(id) is Some ==> r == Err::<(), Error>(Error::AccountAlreadyRegistered)
                && *final(self) == *old(self),
            old(self).role_of(id) is None ==> r is Ok && final(self).role_of(id) == Some(role)
                && (forall|w: AccountId| w != id ==> final(self).role_of(w) == old(self).role_of(w))
                && final(self).events@ == old(self).events@.push(
                RolesEvent::RoleRegistered { user: id, role },
            ),
    {
        self.register_role(id, role)
    }

    /// A customer registers themself.
    pub fn register_customer(&mut self, caller: AccountId) -> (r: Result<(), Error>)
        requires
            old(self).wf(),
        ensures
            final(self).wf(),
            old(self).role_of(caller) is Some ==> r == Err::<(), Error>(Error::AccountAlreadyRegistered)
                && *final(self) == *old(self),
            old(self).role_of(caller) is None ==> r is Ok && final(self).role_of(caller) == Some(
                Role::Customer,
            ) && (forall|w: AccountId|
                w != caller ==> final(self).role_of(w) == old(self).role_of(w)),
    {
        self.register_role(caller, Role::Customer)
    }
}

} // verus!
