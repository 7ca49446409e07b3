//! The ledger: accounts registered with an hourly rate check in and out, earn
//! credit for the time between, and withdraw it from a pool of funds.

use vstd::prelude::*;
use std::collections::HashMap;
use crate::access;
use crate::currency::{balance_after, Currency};
use crate::types::{AccountId, Balance, Moment, Role};

verus! {

/// Milliseconds in an hour: rates are per hour, time is in milliseconds.
pub const MILLIS_PER_HOUR: u64 = 3_600_000;

/// The ledger's own identifier, from which the pool's account is derived.
pub const PALLET_ID: [u8; 8] = [0x74, 0x69, 0x6d, 0x65, 0x6b, 0x65, 0x65, 0x70];

/// The tag that marks an account as derived from a module's identifier.
pub const MODULE_TAG: [u8; 4] = [0x6d, 0x6f, 0x64, 0x6c];

/// The number that `bytes` spell, lowest byte first.
pub open spec fn little_endian(bytes: Seq<u8>) -> nat
    decreases bytes.len(),
{
    if bytes.len() == 0 {
        0
    } else {
        bytes[0] as nat + 256 * little_endian(bytes.drop_first())
    }
}

/// The account that stands for a module: the tag and the module's
/// identifier, cut to the eight bytes of an account identifier.
pub open spec fn module_account(id: Seq<u8>) -> nat {
    little_endian((MODULE_TAG@ + id).take(8))
}

/// The account of this ledger's pool, spelled out: the bytes of `modltime`,
/// lowest first.
pub proof fn lemma_pool_account()
    ensures
        module_account(PALLET_ID@) == 0x656d_6974_6c64_6f6d,
{
    let bytes = (MODULE_TAG@ + PALLET_ID@).take(8);
    assert(bytes =~= seq![0x6du8, 0x6fu8, 0x64u8, 0x6cu8, 0x74u8, 0x69u8, 0x6du8, 0x65u8]);
    let b1 = bytes.drop_first();
    let b2 = b1.drop_first();
    let b3 = b2.drop_first();
    let b4 = b3.drop_first();
    let b5 = b4.drop_first();
    let b6 = b5.drop_first();
    let b7 = b6.drop_first();
    let b8 = b7.drop_first();
    assert(little_endian(b8) == 0);
    assert(little_endian(b7) == 0x65);
    assert(little_endian(b6) == 0x656d);
    assert(little_endian(b5) == 0x656d_69);
    assert(little_endian(b4) == 0x656d_6974);
    assert(little_endian(b3) == 0x656d_6974_6c);
    assert(little_endian(b2) == 0x656d_6974_6c64);
    assert(little_endian(b1) == 0x656d_6974_6c64_6f);
    assert(little_endian(bytes) == 0x656d_6974_6c64_6f6d);
}

/// `sp_runtime`'s `AccountIdConversion::into_account` on `ModuleId(id)`, for
/// accounts that are 64-bit numbers. The outside function writes the tag
/// `modl`, then the identifier, and reads an account back from the front of
/// those bytes; a 64-bit number is read from eight bytes, lowest first.
#[verifier::external_body]
fn into_account(id: &[u8; 8]) -> (account: AccountId)
    ensures
        account == module_account(id@),
{
    sp_runtime::traits::AccountIdConversion::into_account(&sp_runtime::ModuleId(*id))
}

/// Why an operation on the ledger was refused.
#[derive(Clone, Copy, Debug, PartialEq, Eq, Structural)]
pub enum Error {
    /// The account already has a rate.
    AlreadyRegistered,
    /// The account has no rate.
    NotRegistered,
    /// The account is checked in already.
    AlreadyCheckedIn,
    /// The account is not checked in.
    NotCheckedIn,
    /// The account has no credit at all.
    NoCredit,
    /// The account has less credit than the amount.
    InsufficientCredit,
    /// The currency declined to move the funds.
    TransferFailed,
    /// The role registry refused.
    Access(access::Error),
}

impl Error {
    /// The refusal in words.
    pub open spec fn message(self) -> Seq<char> {
        match self {
            Error::AlreadyRegistered => "trying to register an existing account"@,
            Error::NotRegistered => "account not registered"@,
            Error::AlreadyCheckedIn => "account already checked in"@,
            Error::NotCheckedIn => "account not checked in"@,
            Error::NoCredit => "account has no credit"@,
            Error::InsufficientCredit => "insufficient credit"@,
            Error::TransferFailed => "transfer failed"@,
            Error::Access(_) => "refused by the role registry"@,
        }
    }

    /// The refusal in words.
    pub fn describe(&self) -> (text: &'static str)
        ensures
            text@ == self.message(),
    {
        match self {
            Error::AlreadyRegistered => "trying to register an existing account",
            Error::NotRegistered => "account not registered",
            Error::AlreadyCheckedIn => "account already checked in",
            Error::NotCheckedIn => "account not checked in",
            Error::NoCredit => "account has no credit",
            Error::InsufficientCredit => "insufficient credit",
            Error::TransferFailed => "transfer failed",
            Error::Access(_) => "refused by the role registry",
        }
    }
}

/// What a successful operation reports.
#[derive(Clone, Copy, Debug, PartialEq, Eq)]
pub enum Event {
    AccountRegistered(AccountId, Option<Balance>),
    AccountWithdrawal(AccountId, Balance),
    AccountUpdated(AccountId, Option<Balance>),
    AccountEntered(AccountId),
    AccountExited(AccountId),
    Deposit(Balance),
    AdminSetup(AccountId),
}

/// The credit earned in `elapsed` milliseconds at `rate` per hour: whole
/// units only, the rest is dropped.
pub open spec fn credit_for(elapsed: Moment, rate: Balance) -> int {
    (elapsed * rate) / (MILLIS_PER_HOUR as int)
}

/// The ledger as three maps from accounts, beside the two roles it was set
/// up with. An account is registered while it has a rate, and checked in
/// while it has a time of entry.
pub struct State {
    pub admin_role: Role,
    pub registrar_role: Role,
    pub rates: Map<AccountId, Balance>,
    pub entered: Map<AccountId, Moment>,
    pub creditors: Map<AccountId, Balance>,
}

/// What `map` holds for `account`, if anything.
pub open spec fn lookup(map: Map<AccountId, u64>, account: AccountId) -> Option<u64> {
    if map.contains_key(account) {
        Some(map[account])
    } else {
        None
    }
}

/// What `map` holds for `account`, and zero if nothing.
pub open spec fn lookup_or_zero(map: Map<AccountId, u64>, account: AccountId) -> u64 {
    if map.contains_key(account) {
        map[account]
    } else {
        0
    }
}

/// `map` with `account` given `value`, or left without one.
pub open spec fn assign(
    map: Map<AccountId, u64>,
    account: AccountId,
    value: Option<u64>,
) -> Map<AccountId, u64> {
    match value {
        Some(v) => map.insert(account, v),
        None => map.remove(account),
    }
}

impl State {
    /// The hourly rate of `account`, if it is registered.
    pub open spec fn rate(self, account: AccountId) -> Option<Balance> {
        lookup(self.rates, account)
    }

    /// Since when `account` is checked in, if it is.
    pub open spec fn presence(self, account: AccountId) -> Option<Moment> {
        lookup(self.entered, account)
    }

    /// What `account` has earned and not withdrawn, if anything.
    pub open spec fn credit(self, account: AccountId) -> Option<Balance> {
        lookup(self.creditors, account)
    }

    /// The credit of `who` after checking out at `now`.
    pub open spec fn credit_after_exit(self, who: AccountId, now: Moment) -> int {
        let earned = credit_for((now - self.entered[who]) as Moment, self.rates[who]);
        match self.credit(who) {
            Some(credit) => credit + earned,
            None => earned,
        }
    }

    /// Checking out at `now` stays within what the clock and a balance can
    /// express: time has not run backwards, and the credit fits.
    pub open spec fn exit_in_range(self, who: AccountId, now: Moment) -> bool {
        self.rates.contains_key(who) && self.entered.contains_key(who) ==> self.entered[who] <= now
            && self.credit_after_exit(who, now) <= Balance::MAX
    }

    /// What is left of a credit once `amount` is paid out: nothing at all when
    /// it is used up.
    pub open spec fn credit_left(credit: Balance, amount: Balance) -> Option<Balance> {
        if credit == amount {
            None
        } else {
            Some((credit - amount) as Balance)
        }
    }

    /// Setting the roles up: refused when the registrars' role has an
    /// administrator, or when the account is an administrator already.
    /// Otherwise the administrators' role administers the registrars' role
    /// and the account becomes an administrator.
    pub open spec fn setup(
        self,
        registry: access::State,
        account: AccountId,
    ) -> (access::State, Result<Event, Error>) {
        if registry.admin_roles.contains_key(self.registrar_role) {
            (registry, Err(Error::Access(access::Error::AdminRoleExists)))
        } else if registry.has_role(self.admin_role, account) {
            (registry, Err(Error::Access(access::Error::AlreadyMember)))
        } else {
            (
                registry.with_admin(self.registrar_role, self.admin_role).with_member(
                    self.admin_role,
                    account,
                ),
                Ok(Event::AdminSetup(account)),
            )
        }
    }

    /// A registration: the sender must administer the registrars' role, and
    /// the account must have no rate yet. A refusal changes nothing.
    pub open spec fn register_account(
        self,
        registry: access::State,
        who: AccountId,
        account: AccountId,
        rate: Option<Balance>,
    ) -> (State, Result<Event, Error>) {
        if !registry.administers(self.registrar_role, who) {
            (self, Err(Error::Access(access::Error::AdminRequired)))
        } else if self.rates.contains_key(account) {
            (self, Err(Error::AlreadyRegistered))
        } else {
            (
                State { rates: assign(self.rates, account, rate), ..self },
                Ok(Event::AccountRegistered(account, rate)),
            )
        }
    }

    /// A change of rate: nobody is asked, and no rate means no longer
    /// registered.
    pub open spec fn update_rate_for_account(
        self,
        account: AccountId,
        rate: Option<Balance>,
    ) -> (State, Event) {
        (
            State { rates: assign(self.rates, account, rate), ..self },
            Event::AccountUpdated(account, rate),
        )
    }

    /// Whether `account` has a rate.
    pub open spec fn check_if_registered(self, account: AccountId) -> Result<(), Error> {
        if self.rates.contains_key(account) {
            Ok(())
        } else {
            Err(Error::NotRegistered)
        }
    }

    /// Checking in: the account must be registered and not checked in. A
    /// refusal changes nothing.
    pub open spec fn enter_account(
        self,
        who: AccountId,
        now: Moment,
    ) -> (State, Result<Event, Error>) {
        if !self.rates.contains_key(who) {
            (self, Err(Error::NotRegistered))
        } else if self.entered.contains_key(who) {
            (self, Err(Error::AlreadyCheckedIn))
        } else {
            (
                State { entered: self.entered.insert(who, now), ..self },
                Ok(Event::AccountEntered(who)),
            )
        }
    }

    /// Checking out: the account must be registered and checked in. Its
    /// presence ends and its credit grows by what the time since earned. A
    /// refusal changes nothing.
    pub open spec fn exit_account(
        self,
        who: AccountId,
        now: Moment,
    ) -> (State, Result<Event, Error>) {
        if !self.rates.contains_key(who) {
            (self, Err(Error::NotRegistered))
        } else if !self.entered.contains_key(who) {
            (self, Err(Error::NotCheckedIn))
        } else {
            (
                State {
                    entered: self.entered.remove(who),
                    creditors: self.creditors.insert(
                        who,
                        self.credit_after_exit(who, now) as Balance,
                    ),
                    ..self
                },
                Ok(Event::AccountExited(who)),
            )
        }
    }

    /// A withdrawal: refused without a credit, with too small a credit, and
    /// when the currency will not pay `amount` out of the pool to `who`,
    /// which `transferable` tells. A refusal changes nothing.
    pub open spec fn withdraw(
        self,
        who: AccountId,
        amount: Balance,
        transferable: bool,
    ) -> (State, Result<Event, Error>) {
        if !self.creditors.contains_key(who) {
            (self, Err(Error::NoCredit))
        } else if self.creditors[who] < amount {
            (self, Err(Error::InsufficientCredit))
        } else if !transferable {
            (self, Err(Error::TransferFailed))
        } else {
            (
                State {
                    creditors: assign(
                        self.creditors,
                        who,
                        State::credit_left(self.creditors[who], amount),
                    ),
                    ..self
                },
                Ok(Event::AccountWithdrawal(who, amount)),
            )
        }
    }

    /// A deposit: `transferable` tells whether the currency will take
    /// `amount` from the depositor into the pool. The ledger itself does not
    /// change.
    pub open spec fn deposit(amount: Balance, transferable: bool) -> Result<Event, Error> {
        if transferable {
            Ok(Event::Deposit(amount))
        } else {
            Err(Error::TransferFailed)
        }
    }
}

/// The ledger.
pub struct Module {
    admin_role: Role,
    registrar_role: Role,
    rates: HashMap<AccountId, Balance>,
    entered: HashMap<AccountId, Moment>,
    creditors: HashMap<AccountId, Balance>,
}

impl View for Module {
    type V = State;

    closed spec fn view(&self) -> State {
        State {
            admin_role: self.admin_role,
            registrar_role: self.registrar_role,
            rates: self.rates@,
            entered: self.entered@,
            creditors: self.creditors@,
        }
    }
}

impl Module {
    /// The account that holds the pool, as a number.
    pub open spec fn pool() -> AccountId {
        module_account(PALLET_ID@) as AccountId
    }

    /// A ledger without accounts. Members of the role that administers
    /// `registrar_role` may register accounts; `setup` makes that role
    /// `admin_role`.
    pub fn new(admin_role: Role, registrar_role: Role) -> (module: Module)
        ensures
            module@ == (State {
                admin_role,
                registrar_role,
                rates: Map::empty(),
                entered: Map::empty(),
                creditors: Map::empty(),
            }),
    {
        Module {
            admin_role,
            registrar_role,
            rates: HashMap::new(),
            entered: HashMap::new(),
            creditors: HashMap::new(),
        }
    }

    /// The account that holds the pool: deposits go to it, withdrawals are
    /// paid from it.
    pub fn account_id() -> (id: AccountId)
        ensures
            id == Self::pool(),
            id == module_account(PALLET_ID@),
            id == 0x656d_6974_6c64_6f6d,
    {
        proof {
            lemma_pool_account();
        }
        into_account(&PALLET_ID)
    }

    /// The credit earned in `time` milliseconds at `rate` per hour.
    pub fn calculate_credit(time: Moment, rate: Balance) -> (credit: Balance)
        requires
            credit_for(time, rate) <= Balance::MAX,
        ensures
            credit == credit_for(time, rate),
    {
        let product: u128 = (time as u128) * (rate as u128);
        (product / (MILLIS_PER_HOUR as u128)) as Balance
    }

    /// The role of the ledger's administrators.
    pub fn admin_role(&self) -> (role: Role)
        ensures
            role == self@.admin_role,
    {
        self.admin_role
    }

    /// The role whose administrators may register accounts.
    pub fn registrar_role(&self) -> (role: Role)
        ensures
            role == self@.registrar_role,
    {
        self.registrar_role
    }

    /// The hourly rate of `account`, if it is registered.
    pub fn rates(&self, account: AccountId) -> (rate: Option<Balance>)
        ensures
            rate == self@.rate(account),
    {
        match self.rates.get(&account) {
            Some(rate) => Some(*rate),
            None => None,
        }
    }

    /// Since when `account` is checked in, if it is.
    pub fn entered(&self, account: AccountId) -> (since: Option<Moment>)
        ensures
            since == self@.presence(account),
    {
        match self.entered.get(&account) {
            Some(since) => Some(*since),
            None => None,
        }
    }

    /// The credit that `account` has earned and not withdrawn.
    pub fn creditors(&self, account: AccountId) -> (credit: Option<Balance>)
        ensures
            credit == self@.credit(account),
    {
        match self.creditors.get(&account) {
            Some(credit) => Some(*credit),
            None => None,
        }
    }

    /// Whether `account` has a rate.
    pub fn check_if_registered(&self, account: AccountId) -> (registered: Result<(), Error>)
        ensures
            registered == self@.check_if_registered(account),
    {
        if self.rates.contains_key(&account) {
            Ok(())
        } else {
            Err(Error::NotRegistered)
        }
    }

    /// Sets the ledger's roles up in `registry`: the administrators' role
    /// administers the registrars' role, and `account` is the first
    /// administrator. Both happen, or neither.
    pub fn setup(
        &self,
        registry: &mut access::Module,
        account: AccountId,
    ) -> (done: Result<Event, Error>)
        ensures
            (final(registry)@, done) == self@.setup(old(registry)@, account),
            final(registry)@.wf(),
    {
        if registry.has_admin_role(self.registrar_role) {
            return Err(Error::Access(access::Error::AdminRoleExists));
        }
        if registry.has_role(self.admin_role, account) {
            return Err(Error::Access(access::Error::AlreadyMember));
        }
        let _ = registry.set_admin_for_role(self.registrar_role, self.admin_role);
        let _ = registry.add_account_to_role(self.admin_role, account);
        Ok(Event::AdminSetup(account))
    }

    /// `who` registers `account` at `rate` per hour.
    pub fn register_account(
        &mut self,
        registry: &access::Module,
        who: AccountId,
        account: AccountId,
        rate: Option<Balance>,
    ) -> (done: Result<Event, Error>)
        ensures
            (final(self)@, done) == old(self)@.register_account(registry@, who, account, rate),
    {
        if registry.authorize(self.registrar_role, who).is_err() {
            return Err(Error::Access(access::Error::AdminRequired));
        }
        if self.rates.contains_key(&account) {
            return Err(Error::AlreadyRegistered);
        }
        self.assign_rate(account, rate);
        Ok(Event::AccountRegistered(account, rate))
    }

    /// Sets the rate of `account`, or takes it away, whoever asks.
    pub fn update_rate_for_account(
        &mut self,
        account: AccountId,
        rate: Option<Balance>,
    ) -> (done: Event)
        ensures
            (final(self)@, done) == old(self)@.update_rate_for_account(account, rate),
    {
        self.assign_rate(account, rate);
        Event::AccountUpdated(account, rate)
    }

    fn assign_rate(&mut self, account: AccountId, rate: Option<Balance>)
        ensures
            final(self)@ == (State {
                rates: assign(old(self)@.rates, account, rate),
                ..old(self)@
            }),
    {
        match rate {
            Some(rate) => {
                self.rates.insert(account, rate);
            },
            None => {
                self.rates.remove(&account);
            },
        }
    }

    /// `who` checks in at `now`.
    pub fn enter_account(&mut self, who: AccountId, now: Moment) -> (done: Result<Event, Error>)
        ensures
            (final(self)@, done) == old(self)@.enter_account(who, now),
    {
        if !self.rates.contains_key(&who) {
            return Err(Error::NotRegistered);
        }
        if self.entered.contains_key(&who) {
            return Err(Error::AlreadyCheckedIn);
        }
        self.entered.insert(who, now);
        Ok(Event::AccountEntered(who))
    }

    /// Whether `who` can check out at `now` without leaving the range of the
    /// clock or of a balance.
    pub fn exit_in_range(&self, who: AccountId, now: Moment) -> (fits: bool)
        ensures
            fits == self@.exit_in_range(who, now),
    {
        let rate: Balance = match self.rates.get(&who) {
            Some(rate) => *rate,
            None => {
                return true;
            },
        };
        let since: Moment = match self.entered.get(&who) {
            Some(since) => *since,
            None => {
                return true;
            },
        };
        if now < since {
            return false;
        }
        let elapsed: Moment = now - since;
        assert(elapsed * rate <= 0xffff_ffff_ffff_ffff * 0xffff_ffff_ffff_ffff) by (nonlinear_arith)
            requires
                0 <= elapsed <= 0xffff_ffff_ffff_ffff,
                0 <= rate <= 0xffff_ffff_ffff_ffff,
        ;
        let earned: u128 = (elapsed as u128) * (rate as u128) / (MILLIS_PER_HOUR as u128);
        let credit: Balance = match self.creditors.get(&who) {
            Some(credit) => *credit,
            None => 0,
        };
        earned + (credit as u128) <= (Balance::MAX as u128)
    }

    /// `who` checks out at `now` and is credited for the time since checking
    /// in. The clock must not have run backwards since, and the credit must
    /// fit a balance: `exit_in_range` tells, and `try_exit_account` asks it
    /// first.
    pub fn exit_account(&mut self, who: AccountId, now: Moment) -> (done: Result<Event, Error>)
        requires
            old(self)@.exit_in_range(who, now),
        ensures
            (final(self)@, done) == old(self)@.exit_account(who, now),
    {
        let rate: Balance = match self.rates.get(&who) {
            Some(rate) => *rate,
            None => {
                return Err(Error::NotRegistered);
            },
        };
        let since: Moment = match self.entered.get(&who) {
            Some(since) => *since,
            None => {
                return Err(Error::NotCheckedIn);
            },
        };
        let credit: Balance = match self.creditors.get(&who) {
            Some(credit) => *credit,
            None => 0,
        };
        let earned: Balance = Self::calculate_credit(now - since, rate);
        self.entered.remove(&who);
        self.creditors.insert(who, credit + earned);
        Ok(Event::AccountExited(who))
    }

    /// Checks `who` out at `now` where that stays in range, and says `None`
    /// and changes nothing where it does not.
    pub fn try_exit_account(
        &mut self,
        who: AccountId,
        now: Moment,
    ) -> (done: Option<Result<Event, Error>>)
        ensures
            done is Some <==> old(self)@.exit_in_range(who, now),
            match done {
                Some(outcome) => (final(self)@, outcome) == old(self)@.exit_account(who, now),
                None => final(self)@ == old(self)@,
            },
    {
        if self.exit_in_range(who, now) {
            Some(self.exit_account(who, now))
        } else {
            None
        }
    }

    /// `who` pays `amount` into the pool.
    pub fn deposit<C: Currency>(
        &self,
        currency: &mut C,
        who: AccountId,
        amount: Balance,
    ) -> (done: Result<Event, Error>)
        ensures
            done == State::deposit(amount, old(currency).can_transfer(who, Self::pool(), amount)),
            forall|account: AccountId|
                final(currency).free_balance(account) == if done.is_ok() {
                    balance_after(
                        old(currency).free_balance(account),
                        account,
                        who,
                        Self::pool(),
                        amount,
                    )
                } else {
                    old(currency).free_balance(account) as int
                },
    {
        match currency.transfer(who, Self::account_id(), amount) {
            Ok(()) => Ok(Event::Deposit(amount)),
            Err(_) => Err(Error::TransferFailed),
        }
    }

    /// `who` takes `amount` of their credit out of the pool. The credit and
    /// the funds move together, or neither does.
    pub fn withdraw<C: Currency>(
        &mut self,
        currency: &mut C,
        who: AccountId,
        amount: Balance,
    ) -> (done: Result<Event, Error>)
        ensures
            (final(self)@, done) == old(self)@.withdraw(
                who,
                amount,
                old(currency).can_transfer(Self::pool(), who, amount),
            ),
            forall|account: AccountId|
                final(currency).free_balance(account) == if done.is_ok() {
                    balance_after(
                        old(currency).free_balance(account),
                        account,
                        Self::pool(),
                        who,
                        amount,
                    )
                } else {
                    old(currency).free_balance(account) as int
                },
    {
        let credit: Balance = match self.creditors.get(&who) {
            Some(credit) => *credit,
            None => {
                return Err(Error::NoCredit);
            },
        };
        if credit < amount {
            return Err(Error::InsufficientCredit);
        }
        match currency.transfer(Self::account_id(), who, amount) {
            Ok(()) => {
                if credit == amount {
                    self.creditors.remove(&who);
                } else {
                    self.creditors.insert(who, credit - amount);
                }
                Ok(Event::AccountWithdrawal(who, amount))
            },
            Err(_) => Err(Error::TransferFailed),
        }
    }
}

/// Credit is the exact quotient rounded down: it never pays for a part of a
/// unit, and never withholds a whole one.
pub proof fn lemma_credit_is_rounded_down(elapsed: Moment, rate: Balance)
    ensures
        0 <= credit_for(elapsed, rate),
        credit_for(elapsed, rate) * MILLIS_PER_HOUR <= elapsed * rate,
        elapsed * rate < (credit_for(elapsed, rate) + 1) * MILLIS_PER_HOUR,
{
    let product = elapsed * rate;
    assert(0 <= product) by (nonlinear_arith)
        requires
            product == elapsed * rate,
            0 <= elapsed,
            0 <= rate,
    ;
    let quotient = product / 3_600_000;
    assert(quotient * 3_600_000 <= product < (quotient + 1) * 3_600_000 && 0 <= quotient)
        by (nonlinear_arith)
        requires
            quotient == product / 3_600_000,
            0 <= product,
    ;
}

/// Asking for more than the credit at hand is refused, whatever the currency
/// would do, and changes nothing.
pub proof fn lemma_overdraw_is_refused(
    state: State,
    who: AccountId,
    amount: Balance,
    transferable: bool,
)
    requires
        state.creditors.contains_key(who),
        state.creditors[who] < amount,
    ensures
        state.withdraw(who, amount, transferable) == (
            state,
            Err::<Event, Error>(Error::InsufficientCredit),
        ),
{
}

/// A withdrawal is all or nothing: when the currency declines, the credit
/// stays as it was; when it pays, the credit goes down by the amount, and is
/// gone when nothing is left of it.
pub proof fn lemma_withdraw_all_or_nothing(state: State, who: AccountId, amount: Balance)
    requires
        state.creditors.contains_key(who),
        amount <= state.creditors[who],
    ensures
        state.withdraw(who, amount, false) == (state, Err::<Event, Error>(Error::TransferFailed)),
        state.withdraw(who, amount, true).1 == Ok::<Event, Error>(
            Event::AccountWithdrawal(who, amount),
        ),
        state.withdraw(who, amount, true).0.credit(who) == State::credit_left(
            state.creditors[who],
            amount,
        ),
        amount == state.creditors[who] ==> state.withdraw(who, amount, true).0.credit(who) is None,
        forall|other: AccountId|
            other != who ==> state.withdraw(who, amount, true).0.credit(other) == state.credit(
                other,
            ),
{
}

/// An account registered at a rate, checked in at one time and out at a
/// later one, has earned exactly the credit for the time between.
pub proof fn lemma_round_trip(
    state: State,
    registry: access::State,
    who: AccountId,
    account: AccountId,
    rate: Balance,
    entry: Moment,
    exit: Moment,
)
    requires
        registry.administers(state.registrar_role, who),
        !state.rates.contains_key(account),
        !state.entered.contains_key(account),
        !state.creditors.contains_key(account),
        entry <= exit,
        credit_for((exit - entry) as Moment, rate) <= Balance::MAX,
    ensures
        ({
            let registered = state.register_account(registry, who, account, Some(rate));
            let inside = registered.0.enter_account(account, entry);
            let outside = inside.0.exit_account(account, exit);
            &&& registered.1.is_ok()
            &&& inside.1.is_ok()
            &&& inside.0.exit_in_range(account, exit)
            &&& outside.1.is_ok()
            &&& outside.0.credit(account) == Some(
                credit_for((exit - entry) as Moment, rate) as Balance,
            )
            &&& outside.0.presence(account) is None
        }),
{
}

/// Only checking in and out touch an account's presence, only checking out
/// raises its credit, and only a withdrawal lowers it.
pub proof fn lemma_presence_and_credit(
    state: State,
    registry: access::State,
    who: AccountId,
    account: AccountId,
    rate: Option<Balance>,
    now: Moment,
    amount: Balance,
    transferable: bool,
)
    requires
        state.exit_in_range(who, now),
    ensures
        state.register_account(registry, who, account, rate).0.entered == state.entered,
        state.register_account(registry, who, account, rate).0.creditors == state.creditors,
        state.update_rate_for_account(account, rate).0.entered == state.entered,
        state.update_rate_for_account(account, rate).0.creditors == state.creditors,
        state.enter_account(who, now).0.creditors == state.creditors,
        state.enter_account(who, now).1.is_ok() ==> state.presence(who) is None
            && state.enter_account(who, now).0.presence(who) == Some(now),
        state.exit_account(who, now).1.is_ok() ==> state.presence(who) is Some
            && state.exit_account(who, now).0.presence(who) is None,
        state.exit_account(who, now).1.is_ok() ==> state.exit_account(who, now).0.creditors[who]
            >= lookup_or_zero(state.creditors, who),
        state.withdraw(who, amount, transferable).0.entered == state.entered,
        state.withdraw(who, amount, transferable).1.is_ok() ==> lookup_or_zero(
            state.withdraw(who, amount, transferable).0.creditors,
            who,
        ) == state.creditors[who] - amount,
{
    if state.exit_account(who, now).1.is_ok() {
        lemma_credit_is_rounded_down((now - state.entered[who]) as Moment, state.rates[who]);
    }
}

} // verus!
