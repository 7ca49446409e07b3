//! The role registry: which accounts hold a role, and which role administers
//! it. Every privileged operation of the crate asks `authorize` first.

use vstd::prelude::*;
use crate::members::{
    binary_search, inserted, lemma_inserted, lemma_removed, removed, strictly_sorted,
};
use crate::table::{
    at, distinct, find, lemma_position, lemma_pushed, lemma_same_roles, position, present, Entry,
};
use crate::types::{AccountId, Role};

verus! {

/// Why an operation on the registry was refused.
#[derive(Clone, Copy, Debug, PartialEq, Eq, Structural)]
pub enum Error {
    /// The account already holds the role.
    AlreadyMember,
    /// The account does not hold the role.
    NotMember,
    /// The sender does not hold the role that administers the role.
    AdminRequired,
    /// A role can be renounced only by the account that holds it.
    RenounceSelf,
    /// The role already has an administrator.
    AdminRoleExists,
}

/// What a successful operation reports: the role, the account it was about,
/// and the sender.
#[derive(Clone, Copy, Debug, PartialEq, Eq, Structural)]
pub enum Event {
    RoleGranted(Role, AccountId, AccountId),
    RoleRevoked(Role, AccountId, AccountId),
}

/// The registry as two maps. A role without an entry has no members and is
/// administered by the all-zero role.
pub struct State {
    pub admin_roles: Map<Role, Role>,
    pub roles: Map<Role, Seq<AccountId>>,
}

impl State {
    /// The accounts that hold `role`, in the order in which they are kept.
    pub open spec fn members(self, role: Role) -> Seq<AccountId> {
        if self.roles.contains_key(role) {
            self.roles[role]
        } else {
            Seq::empty()
        }
    }

    /// The role that administers `role`.
    pub open spec fn admin_of(self, role: Role) -> Role {
        if self.admin_roles.contains_key(role) {
            self.admin_roles[role]
        } else {
            Role::none()
        }
    }

    /// `account` holds `role`.
    pub open spec fn has_role(self, role: Role, account: AccountId) -> bool {
        self.members(role).contains(account)
    }

    /// `who` holds the role that administers `role`.
    pub open spec fn administers(self, role: Role, who: AccountId) -> bool {
        self.has_role(self.admin_of(role), who)
    }

    /// Every member list is sorted, hence free of duplicates.
    pub open spec fn wf(self) -> bool {
        forall|role: Role| strictly_sorted(#[trigger] self.members(role))
    }

    /// The registry once `admin_role` administers `role`.
    pub open spec fn with_admin(self, role: Role, admin_role: Role) -> State {
        State { admin_roles: self.admin_roles.insert(role, admin_role), ..self }
    }

    /// The registry once `account` is put into the members of `role`.
    pub open spec fn with_member(self, role: Role, account: AccountId) -> State {
        State { roles: self.roles.insert(role, inserted(self.members(role), account)), ..self }
    }

    /// The registry once `account` is taken out of the members of `role`.
    pub open spec fn without_member(self, role: Role, account: AccountId) -> State {
        State { roles: self.roles.insert(role, removed(self.members(role), account)), ..self }
    }

    /// Setting an administrator: refused when the role has one, whichever
    /// it is.
    pub open spec fn set_admin_for_role(
        self,
        role: Role,
        admin_role: Role,
    ) -> (State, Result<(), Error>) {
        if self.admin_roles.contains_key(role) {
            (self, Err(Error::AdminRoleExists))
        } else {
            (self.with_admin(role, admin_role), Ok(()))
        }
    }

    /// Adding a member: refused when the account holds the role.
    pub open spec fn add_member(
        self,
        role: Role,
        account: AccountId,
    ) -> (State, Result<(), Error>) {
        if self.has_role(role, account) {
            (self, Err(Error::AlreadyMember))
        } else {
            (self.with_member(role, account), Ok(()))
        }
    }

    /// Removing a member: refused when the account does not hold the role.
    pub open spec fn remove_member(
        self,
        role: Role,
        account: AccountId,
    ) -> (State, Result<(), Error>) {
        if self.has_role(role, account) {
            (self.without_member(role, account), Ok(()))
        } else {
            (self, Err(Error::NotMember))
        }
    }

    /// What every privileged operation asks first.
    pub open spec fn authorize(self, role: Role, who: AccountId) -> Result<(), Error> {
        if self.administers(role, who) {
            Ok(())
        } else {
            Err(Error::AdminRequired)
        }
    }

    /// A grant: the sender must administer the role, and the account must
    /// not hold it yet. A refusal changes nothing.
    pub open spec fn grant_role(
        self,
        who: AccountId,
        role: Role,
        account: AccountId,
    ) -> (State, Result<Event, Error>) {
        if !self.administers(role, who) {
            (self, Err(Error::AdminRequired))
        } else if self.has_role(role, account) {
            (self, Err(Error::AlreadyMember))
        } else {
            (self.with_member(role, account), Ok(Event::RoleGranted(role, account, who)))
        }
    }

    /// A revocation: the sender must administer the role, and the account
    /// must hold it. A refusal changes nothing.
    pub open spec fn revoke_role(
        self,
        who: AccountId,
        role: Role,
        account: AccountId,
    ) -> (State, Result<Event, Error>) {
        if !self.administers(role, who) {
            (self, Err(Error::AdminRequired))
        } else if !self.has_role(role, account) {
            (self, Err(Error::NotMember))
        } else {
            (self.without_member(role, account), Ok(Event::RoleRevoked(role, account, who)))
        }
    }

    /// Giving a role up: the sender must be the account, and must hold the
    /// role. A refusal changes nothing.
    pub open spec fn renounce_role(
        self,
        who: AccountId,
        role: Role,
        account: AccountId,
    ) -> (State, Result<Event, Error>) {
        if account != who {
            (self, Err(Error::RenounceSelf))
        } else if !self.has_role(role, account) {
            (self, Err(Error::NotMember))
        } else {
            (self.without_member(role, account), Ok(Event::RoleRevoked(role, account, who)))
        }
    }
}

/// The registry. Roles come into being when an administrator is set or a
/// first member is added, and are never deleted.
pub struct Module {
    admin_roles: Vec<Entry<Role>>,
    roles: Vec<Entry<Vec<AccountId>>>,
}

impl View for Module {
    type V = State;

    closed spec fn view(&self) -> State {
        State {
            admin_roles: Map::new(
                |role: Role| present(self.admin_roles@, role),
                |role: Role| self.admin_roles[position(self.admin_roles@, role)].value,
            ),
            roles: Map::new(
                |role: Role| present(self.roles@, role),
                |role: Role| self.roles[position(self.roles@, role)].value@,
            ),
        }
    }
}

impl Module {
    #[verifier::type_invariant]
    spec fn inv(&self) -> bool {
        &&& distinct(self.admin_roles@)
        &&& distinct(self.roles@)
        &&& forall|i: int|
            0 <= i < self.roles.len() ==> strictly_sorted(#[trigger] self.roles[i].value@)
    }

    /// The representation's invariant gives the model's.
    proof fn lemma_wf(self)
        requires
            self.inv(),
        ensures
            self@.wf(),
    {
        assert forall|role: Role| strictly_sorted(#[trigger] self@.members(role)) by {
            if present(self.roles@, role) {
                assert(at(self.roles@, role, position(self.roles@, role)));
            }
        }
    }

    /// A registry without roles.
    pub fn new() -> (module: Module)
        ensures
            module@.admin_roles == Map::<Role, Role>::empty(),
            module@.roles == Map::<Role, Seq<AccountId>>::empty(),
            module@.wf(),
    {
        let module = Module { admin_roles: Vec::new(), roles: Vec::new() };
        proof {
            assert forall|role: Role| !present(module.admin_roles@, role) by {
                if present(module.admin_roles@, role) {
                    assert(at(module.admin_roles@, role, position(module.admin_roles@, role)));
                }
            }
            assert forall|role: Role| !present(module.roles@, role) by {
                if present(module.roles@, role) {
                    assert(at(module.roles@, role, position(module.roles@, role)));
                }
            }
            assert(module@.admin_roles =~= Map::<Role, Role>::empty());
            assert(module@.roles =~= Map::<Role, Seq<AccountId>>::empty());
            module.lemma_wf();
        }
        module
    }

    /// Whether `account` holds `role`.
    pub fn has_role(&self, role: Role, account: AccountId) -> (held: bool)
        ensures
            held == self@.has_role(role, account),
            self@.wf(),
    {
        proof {
            use_type_invariant(self);
            self.lemma_wf();
        }
        match find(&self.roles, role) {
            Some(i) => {
                proof {
                    lemma_position(self.roles@, i as int);
                }
                binary_search(&self.roles[i].value, account).is_ok()
            },
            None => false,
        }
    }

    /// How many accounts hold `role`.
    pub fn get_role_member_count(&self, role: Role) -> (count: usize)
        ensures
            count == self@.members(role).len(),
            self@.wf(),
    {
        proof {
            use_type_invariant(self);
            self.lemma_wf();
        }
        match find(&self.roles, role) {
            Some(i) => {
                proof {
                    lemma_position(self.roles@, i as int);
                }
                self.roles[i].value.len()
            },
            None => 0,
        }
    }

    /// The role that administers `role`: the all-zero role unless one was set.
    pub fn get_admin_of_role(&self, role: Role) -> (admin: Role)
        ensures
            admin == self@.admin_of(role),
            self@.wf(),
    {
        proof {
            use_type_invariant(self);
            self.lemma_wf();
        }
        match find(&self.admin_roles, role) {
            Some(i) => {
                proof {
                    lemma_position(self.admin_roles@, i as int);
                }
                self.admin_roles[i].value
            },
            None => Role::zero(),
        }
    }

    /// Whether an administrator was set for `role`.
    pub fn has_admin_role(&self, role: Role) -> (set: bool)
        ensures
            set == self@.admin_roles.contains_key(role),
            self@.wf(),
    {
        proof {
            use_type_invariant(self);
            self.lemma_wf();
        }
        find(&self.admin_roles, role).is_some()
    }

    /// The accounts that hold `role`, in increasing order.
    pub fn roles(&self, role: Role) -> (accounts: Vec<AccountId>)
        ensures
            accounts@ == self@.members(role),
            self@.wf(),
    {
        proof {
            use_type_invariant(self);
            self.lemma_wf();
        }
        let mut accounts: Vec<AccountId> = Vec::new();
        match find(&self.roles, role) {
            Some(i) => {
                proof {
                    lemma_position(self.roles@, i as int);
                }
                let stored = &self.roles[i].value;
                let mut k: usize = 0;
                while k < stored.len()
                    invariant
                        k <= stored.len(),
                        accounts@ == stored@.take(k as int),
                    decreases stored.len() - k,
                {
                    accounts.push(stored[k]);
                    proof {
                        assert(accounts@ =~= stored@.take(k + 1));
                    }
                    k += 1;
                }
                proof {
                    assert(accounts@ =~= stored@);
                }
            },
            None => {
                proof {
                    assert(accounts@ =~= Seq::<AccountId>::empty());
                }
            },
        }
        accounts
    }

    /// Asked before every privileged operation: `who` must hold the role
    /// that administers `role`.
    pub fn authorize(&self, role: Role, who: AccountId) -> (allowed: Result<(), Error>)
        ensures
            allowed == self@.authorize(role, who),
            self@.wf(),
    {
        if self.has_role(self.get_admin_of_role(role), who) {
            Ok(())
        } else {
            Err(Error::AdminRequired)
        }
    }

    /// Makes `admin_role` the administrator of `role`, unless `role` has one.
    pub fn set_admin_for_role(&mut self, role: Role, admin_role: Role) -> (done: Result<(), Error>)
        ensures
            (final(self)@, done) == old(self)@.set_admin_for_role(role, admin_role),
            final(self)@.wf(),
    {
        proof {
            use_type_invariant(&*self);
            self.lemma_wf();
        }
        match find(&self.admin_roles, role) {
            Some(_) => Err(Error::AdminRoleExists),
            None => {
                let entry = Entry { role, value: admin_role };
                proof {
                    lemma_pushed(self.admin_roles@, entry);
                }
                // The list is taken out while it grows, so that the registry is
                // whole at every step.
                let mut admin_roles: Vec<Entry<Role>> = Vec::new();
                std::mem::swap(&mut self.admin_roles, &mut admin_roles);
                admin_roles.push(entry);
                self.admin_roles = admin_roles;
                proof {
                    assert(self@.admin_roles =~= old(self)@.admin_roles.insert(role, admin_role));
                    assert(self@.roles =~= old(self)@.roles);
                    self.lemma_wf();
                }
                Ok(())
            },
        }
    }

    /// Adds `account` to `role` without asking who the sender is.
    pub fn add_account_to_role(
        &mut self,
        role: Role,
        account: AccountId,
    ) -> (done: Result<(), Error>)
        ensures
            (final(self)@, done) == old(self)@.add_member(role, account),
            final(self)@.wf(),
    {
        self.add_member(role, account)
    }

    fn add_member(&mut self, role: Role, account: AccountId) -> (done: Result<(), Error>)
        ensures
            (final(self)@, done) == old(self)@.add_member(role, account),
            final(self)@.wf(),
    {
        proof {
            use_type_invariant(&*self);
            self.lemma_wf();
        }
        let ghost grown = inserted(self@.members(role), account);
        match find(&self.roles, role) {
            Some(i) => {
                proof {
                    lemma_position(self.roles@, i as int);
                }
                match binary_search(&self.roles[i].value, account) {
                    Ok(_) => {
                        return Err(Error::AlreadyMember);
                    },
                    Err(at) => {
                        proof {
                            lemma_inserted(self.roles[i as int].value@, account);
                        }
                        // The table is taken out while one of its lists changes,
                        // so that the registry is whole at every step.
                        let mut roles: Vec<Entry<Vec<AccountId>>> = Vec::new();
                        std::mem::swap(&mut self.roles, &mut roles);
                        roles[i].value.insert(at, account);
                        proof {
                            lemma_same_roles(old(self).roles@, roles@);
                            lemma_position(roles@, i as int);
                        }
                        self.roles = roles;
                    },
                }
            },
            None => {
                let mut accounts: Vec<AccountId> = Vec::new();
                accounts.push(account);
                let entry = Entry { role, value: accounts };
                proof {
                    assert(entry.value@ =~= grown);
                    lemma_pushed(self.roles@, entry);
                }
                let mut roles: Vec<Entry<Vec<AccountId>>> = Vec::new();
                std::mem::swap(&mut self.roles, &mut roles);
                roles.push(entry);
                self.roles = roles;
            },
        }
        proof {
            assert(self@.roles =~= old(self)@.roles.insert(role, grown));
            assert(self@.admin_roles =~= old(self)@.admin_roles);
            self.lemma_wf();
        }
        Ok(())
    }

    fn remove_member(&mut self, role: Role, account: AccountId) -> (done: Result<(), Error>)
        ensures
            (final(self)@, done) == old(self)@.remove_member(role, account),
            final(self)@.wf(),
    {
        proof {
            use_type_invariant(&*self);
            self.lemma_wf();
        }
        let ghost shrunk = removed(self@.members(role), account);
        let i: usize = match find(&self.roles, role) {
            Some(i) => i,
            None => {
                return Err(Error::NotMember);
            },
        };
        proof {
            lemma_position(self.roles@, i as int);
        }
        match binary_search(&self.roles[i].value, account) {
            Ok(at) => {
                proof {
                    lemma_removed(self.roles[i as int].value@, account);
                }
                let mut roles: Vec<Entry<Vec<AccountId>>> = Vec::new();
                std::mem::swap(&mut self.roles, &mut roles);
                roles[i].value.remove(at);
                proof {
                    lemma_same_roles(old(self).roles@, roles@);
                    lemma_position(roles@, i as int);
                }
                self.roles = roles;
                proof {
                    assert(self@.roles =~= old(self)@.roles.insert(role, shrunk));
                    assert(self@.admin_roles =~= old(self)@.admin_roles);
                    self.lemma_wf();
                }
                Ok(())
            },
            Err(_) => Err(Error::NotMember),
        }
    }

    /// `who`, an administrator of `role`, gives the role to `account`.
    pub fn grant_role(
        &mut self,
        who: AccountId,
        role: Role,
        account: AccountId,
    ) -> (done: Result<Event, Error>)
        ensures
            (final(self)@, done) == old(self)@.grant_role(who, role, account),
            final(self)@.wf(),
    {
        if self.authorize(role, who).is_err() {
            return Err(Error::AdminRequired);
        }
        match self.add_member(role, account) {
            Ok(()) => Ok(Event::RoleGranted(role, account, who)),
            Err(e) => Err(e),
        }
    }

    /// `who`, an administrator of `role`, takes the role from `account`.
    pub fn revoke_role(
        &mut self,
        who: AccountId,
        role: Role,
        account: AccountId,
    ) -> (done: Result<Event, Error>)
        ensures
            (final(self)@, done) == old(self)@.revoke_role(who, role, account),
            final(self)@.wf(),
    {
        if self.authorize(role, who).is_err() {
            return Err(Error::AdminRequired);
        }
        match self.remove_member(role, account) {
            Ok(()) => Ok(Event::RoleRevoked(role, account, who)),
            Err(e) => Err(e),
        }
    }

    /// `who` gives up a role of their own; nobody can do so for another.
    pub fn renounce_role(
        &mut self,
        who: AccountId,
        role: Role,
        account: AccountId,
    ) -> (done: Result<Event, Error>)
        ensures
            (final(self)@, done) == old(self)@.renounce_role(who, role, account),
            final(self)@.wf(),
    {
        if account != who {
            proof {
                use_type_invariant(&*self);
                self.lemma_wf();
            }
            return Err(Error::RenounceSelf);
        }
        match self.remove_member(role, account) {
            Ok(()) => Ok(Event::RoleRevoked(role, account, who)),
            Err(e) => Err(e),
        }
    }
}

/// A change asked of one role's member list.
pub enum Change {
    Grant(AccountId),
    Revoke(AccountId),
}

/// What one change makes of a set of accounts: a grant puts its account in,
/// a revocation takes its account out.
pub open spec fn set_with(accounts: Set<AccountId>, change: Change) -> Set<AccountId> {
    match change {
        Change::Grant(account) => accounts.insert(account),
        Change::Revoke(account) => accounts.remove(account),
    }
}

/// What a list of changes makes of a set of accounts, in order.
pub open spec fn set_after(accounts: Set<AccountId>, changes: Seq<Change>) -> Set<AccountId>
    decreases changes.len(),
{
    if changes.len() == 0 {
        accounts
    } else {
        set_with(set_after(accounts, changes.drop_last()), changes.last())
    }
}

impl State {
    /// The registry after one change to `role`, carried out or refused.
    pub open spec fn apply(self, role: Role, change: Change) -> State {
        match change {
            Change::Grant(account) => self.add_member(role, account).0,
            Change::Revoke(account) => self.remove_member(role, account).0,
        }
    }

    /// The registry after a list of changes to `role`, in order.
    pub open spec fn apply_all(self, role: Role, changes: Seq<Change>) -> State
        decreases changes.len(),
    {
        if changes.len() == 0 {
            self
        } else {
            self.apply_all(role, changes.drop_last()).apply(role, changes.last())
        }
    }
}

/// One change keeps every list sorted, does to the members of its role what
/// it says, and touches nothing else.
pub proof fn lemma_apply(state: State, role: Role, change: Change)
    requires
        state.wf(),
    ensures
        state.apply(role, change).wf(),
        state.apply(role, change).members(role).to_set() == set_with(
            state.members(role).to_set(),
            change,
        ),
        state.apply(role, change).admin_roles == state.admin_roles,
        forall|other: Role|
            other != role ==> state.apply(role, change).members(other) == state.members(other),
{
    let before = state.members(role);
    let after = state.apply(role, change);
    assert(strictly_sorted(before));
    match change {
        Change::Grant(account) => {
            if before.contains(account) {
                assert(before.to_set().insert(account) =~= before.to_set());
            } else {
                lemma_inserted(before, account);
            }
        },
        Change::Revoke(account) => {
            if before.contains(account) {
                lemma_removed(before, account);
            } else {
                assert(before.to_set().remove(account) =~= before.to_set());
            }
        },
    }
    assert forall|other: Role| strictly_sorted(#[trigger] after.members(other)) by {
        if other != role {
            assert(after.members(other) == state.members(other));
        }
    }
}

/// Behind `authorize`, a grant and a revocation are the two changes: a
/// sender who administers the role makes the change, any other sender makes
/// none; and renouncing is revoking one's own membership.
pub proof fn lemma_operations_are_changes(
    state: State,
    who: AccountId,
    role: Role,
    account: AccountId,
)
    ensures
        state.add_member(role, account).0 == state.apply(role, Change::Grant(account)),
        state.remove_member(role, account).0 == state.apply(role, Change::Revoke(account)),
        state.grant_role(who, role, account).0 == if state.administers(role, who) {
            state.apply(role, Change::Grant(account))
        } else {
            state
        },
        state.revoke_role(who, role, account).0 == if state.administers(role, who) {
            state.apply(role, Change::Revoke(account))
        } else {
            state
        },
        state.renounce_role(account, role, account).0 == state.apply(
            role,
            Change::Revoke(account),
        ),
        who != account ==> state.renounce_role(who, role, account).0 == state,
{
}

/// Whatever grants and revocations a role sees, accepted or refused, its
/// members are the set that the same insertions and removals make of the
/// members it had; the list stays sorted and holds nobody twice; and no
/// other role, and no administrator, changes.
pub proof fn lemma_membership_follows_changes(state: State, role: Role, changes: Seq<Change>)
    requires
        state.wf(),
    ensures
        state.apply_all(role, changes).wf(),
        state.apply_all(role, changes).members(role).to_set() == set_after(
            state.members(role).to_set(),
            changes,
        ),
        strictly_sorted(state.apply_all(role, changes).members(role)),
        state.apply_all(role, changes).members(role).no_duplicates(),
        state.apply_all(role, changes).admin_roles == state.admin_roles,
        forall|other: Role|
            other != role ==> state.apply_all(role, changes).members(other) == state.members(other),
    decreases changes.len(),
{
    if changes.len() > 0 {
        let earlier = state.apply_all(role, changes.drop_last());
        lemma_membership_follows_changes(state, role, changes.drop_last());
        lemma_apply(earlier, role, changes.last());
    }
    let members = state.apply_all(role, changes).members(role);
    assert(strictly_sorted(members));
    assert forall|i: int, j: int|
        0 <= i < members.len() && 0 <= j < members.len() && i != j implies members[i]
        != members[j] by {
        if i < j {
            assert(members[i] < members[j]);
        } else {
            assert(members[j] < members[i]);
        }
    }
}

/// Once a role has an administrator, setting another is refused and changes
/// nothing: the first one stays.
pub proof fn lemma_admin_is_set_once(state: State, role: Role, first: Role, second: Role)
    requires
        !state.admin_roles.contains_key(role),
    ensures
        state.set_admin_for_role(role, first).1.is_ok(),
        ({
            let after = state.set_admin_for_role(role, first).0;
            &&& after.set_admin_for_role(role, second) == (
                after,
                Err::<(), Error>(Error::AdminRoleExists),
            )
            &&& after.admin_of(role) == first
        }),
{
}

/// No operation changes or removes an administrator that was set, and none
/// removes a role's member list.
pub proof fn lemma_admin_is_immutable(
    state: State,
    who: AccountId,
    role: Role,
    admin_role: Role,
    account: AccountId,
    other: Role,
)
    requires
        state.admin_roles.contains_key(other),
    ensures
        state.set_admin_for_role(role, admin_role).0.admin_roles.contains_key(other),
        state.set_admin_for_role(role, admin_role).0.admin_of(other) == state.admin_of(other),
        state.add_member(role, account).0.admin_roles == state.admin_roles,
        state.remove_member(role, account).0.admin_roles == state.admin_roles,
        state.grant_role(who, role, account).0.admin_roles == state.admin_roles,
        state.revoke_role(who, role, account).0.admin_roles == state.admin_roles,
        state.renounce_role(who, role, account).0.admin_roles == state.admin_roles,
        state.set_admin_for_role(role, admin_role).0.roles == state.roles,
        state.roles.dom().subset_of(state.add_member(role, account).0.roles.dom()),
        state.roles.dom().subset_of(state.remove_member(role, account).0.roles.dom()),
{
}

/// Adding an account to a role a second time is refused and changes nothing.
pub proof fn lemma_add_member_twice(state: State, role: Role, account: AccountId)
    requires
        state.wf(),
    ensures
        ({
            let after = state.add_member(role, account).0;
            after.add_member(role, account) == (after, Err::<(), Error>(Error::AlreadyMember))
        }),
{
    let before = state.members(role);
    assert(strictly_sorted(before));
    if !before.contains(account) {
        lemma_inserted(before, account);
        assert(inserted(before, account).to_set().contains(account));
    }
}

/// A grant that went through is refused when the same sender repeats it.
pub proof fn lemma_grant_twice(state: State, who: AccountId, role: Role, account: AccountId)
    requires
        state.wf(),
        state.grant_role(who, role, account).1.is_ok(),
    ensures
        ({
            let after = state.grant_role(who, role, account).0;
            after.grant_role(who, role, account) == (
                after,
                Err::<Event, Error>(Error::AlreadyMember),
            )
        }),
{
    let before = state.members(role);
    assert(strictly_sorted(before));
    lemma_inserted(before, account);
    let grown = inserted(before, account);
    assert(grown.to_set().contains(account));
    if state.admin_of(role) == role {
        assert(before.to_set().contains(who));
        assert(grown.to_set().contains(who));
    }
}

/// Revoking a role from an account that does not hold it is refused and
/// changes nothing; so is renouncing it.
pub proof fn lemma_revoke_absent(state: State, who: AccountId, role: Role, account: AccountId)
    requires
        !state.has_role(role, account),
    ensures
        state.remove_member(role, account) == (state, Err::<(), Error>(Error::NotMember)),
        state.administers(role, who) ==> state.revoke_role(who, role, account) == (
            state,
            Err::<Event, Error>(Error::NotMember),
        ),
        state.renounce_role(account, role, account) == (
            state,
            Err::<Event, Error>(Error::NotMember),
        ),
{
}

/// An account that a role did not hold, and that no later change granted,
/// does not hold the role: revoking it is refused.
pub proof fn lemma_revoke_never_granted(
    state: State,
    role: Role,
    changes: Seq<Change>,
    account: AccountId,
)
    requires
        state.wf(),
        !state.has_role(role, account),
        forall|i: int| 0 <= i < changes.len() ==> changes[i] != Change::Grant(account),
    ensures
        !state.apply_all(role, changes).has_role(role, account),
        ({
            let after = state.apply_all(role, changes);
            after.remove_member(role, account) == (after, Err::<(), Error>(Error::NotMember))
        }),
{
    lemma_membership_follows_changes(state, role, changes);
    lemma_set_after_without_grant(state.members(role).to_set(), changes, account);
    let after = state.apply_all(role, changes);
    if after.members(role).contains(account) {
        assert(after.members(role).to_set().contains(account));
    }
}

proof fn lemma_set_after_without_grant(
    accounts: Set<AccountId>,
    changes: Seq<Change>,
    account: AccountId,
)
    requires
        !accounts.contains(account),
        forall|i: int| 0 <= i < changes.len() ==> changes[i] != Change::Grant(account),
    ensures
        !set_after(accounts, changes).contains(account),
    decreases changes.len(),
{
    if changes.len() > 0 {
        assert(changes.last() == changes[changes.len() - 1]);
        assert forall|i: int| 0 <= i < changes.drop_last().len() implies changes.drop_last()[i]
            != Change::Grant(account) by {
            assert(changes.drop_last()[i] == changes[i]);
        }
        lemma_set_after_without_grant(accounts, changes.drop_last(), account);
    }
}

} // verus!
