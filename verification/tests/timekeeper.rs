use timekeeper::access;
use timekeeper::currency::{Bank, Currency, TransferError};
use timekeeper::timekeeper::{Error, Event, Module, MILLIS_PER_HOUR, PALLET_ID};
use timekeeper::types::Role;

const ADMIN: Role = Role { hi: 1, lo: 1 };
const REGISTRAR: Role = Role { hi: 2, lo: 2 };
const BOB: u64 = 101;
const ALICE: u64 = 100;
const CHARLIE: u64 = 102;
const RATE: u64 = 10;
const BLOCK_JUMP: u64 = 10;
const HOUR: u64 = 3_600_000;

/// A registry in which ALICE administers registration, and an empty ledger.
fn new_test_ext() -> (access::Module, Module) {
    let mut registry = access::Module::new();
    let ledger = Module::new(ADMIN, REGISTRAR);
    assert_eq!(ledger.setup(&mut registry, ALICE), Ok(Event::AdminSetup(ALICE)));
    (registry, ledger)
}

/// Everything a caller can see of the three accounts the tests use.
fn snapshot(ledger: &Module) -> Vec<(Option<u64>, Option<u64>, Option<u64>)> {
    [ALICE, BOB, CHARLIE]
        .iter()
        .map(|who| (ledger.rates(*who), ledger.entered(*who), ledger.creditors(*who)))
        .collect()
}

#[test]
fn it_works_registering_a_user() {
    let (registry, mut ledger) = new_test_ext();
    // Register user BOB at RATE
    let registered = ledger.register_account(&registry, ALICE, BOB, Some(RATE));
    assert!(registered.is_ok());
    // We shouldn't be able to register the same account again
    let again = ledger.register_account(&registry, ALICE, BOB, Some(RATE));
    assert_eq!(again, Err(Error::AlreadyRegistered));
    assert_eq!(Error::AlreadyRegistered.describe(), "trying to register an existing account");
    // Check we have set the RATE for BOB
    assert_eq!(ledger.rates(BOB), Some(RATE));
    // Confirm we sent the event out for BOB at RATE set
    assert_eq!(registered, Ok(Event::AccountRegistered(BOB, Some(RATE))));
}

#[test]
fn it_checks_in_and_out() {
    let (registry, mut ledger) = new_test_ext();
    let start: u64 = HOUR;
    // Register BOB at RATE
    let registered = ledger.register_account(&registry, ALICE, BOB, Some(RATE));
    assert!(registered.is_ok());
    // Confirm we sent the event out for BOB at RATE
    assert_eq!(registered, Ok(Event::AccountRegistered(BOB, Some(RATE))));
    // BOB enters
    let entered = ledger.enter_account(BOB, start);
    assert!(entered.is_ok());
    // BOB trys to enter again
    let before = snapshot(&ledger);
    assert_eq!(ledger.enter_account(BOB, start), Err(Error::AlreadyCheckedIn));
    assert_eq!(snapshot(&ledger), before);
    // CHARLIE trys to enter
    let stranger = ledger.enter_account(CHARLIE, start);
    assert_eq!(stranger, Err(Error::NotRegistered));
    assert_eq!(Error::NotRegistered.describe(), "account not registered");
    // Confirm we sent the event for BOB entered
    assert_eq!(entered, Ok(Event::AccountEntered(BOB)));
    // Move on by BLOCK_JUMP hours
    let now = start + BLOCK_JUMP * HOUR;
    // BOB exits
    assert!(ledger.exit_in_range(BOB, now));
    let exited = ledger.exit_account(BOB, now);
    assert!(exited.is_ok());
    // BOB trys to exit again
    let before = snapshot(&ledger);
    assert!(ledger.exit_in_range(BOB, now));
    assert_eq!(ledger.exit_account(BOB, now), Err(Error::NotCheckedIn));
    assert_eq!(snapshot(&ledger), before);
    // CHARLIE trys to exit
    assert!(ledger.exit_in_range(CHARLIE, now));
    let stranger = ledger.exit_account(CHARLIE, now);
    assert_eq!(stranger, Err(Error::NotRegistered));
    assert_eq!(stranger.unwrap_err().describe(), "account not registered");
    // Confirm we sent the event for BOB exited
    assert_eq!(exited, Ok(Event::AccountExited(BOB)));
    // Check that BOB is now a creditor and should have credit of RATE * BLOCK_JUMP
    assert_eq!(ledger.creditors(BOB), Some(RATE * BLOCK_JUMP));
}

#[test]
fn pool_account_spells_the_tag_and_the_identifier() {
    assert_eq!(PALLET_ID, *b"timekeep");
    assert_eq!(Module::account_id(), u64::from_le_bytes(*b"modltime"));
    assert_eq!(Module::account_id(), 0x656d_6974_6c64_6f6d);
    assert_ne!(Module::account_id(), u64::from_le_bytes(PALLET_ID));
}

#[test]
fn a_new_ledger_knows_its_roles_and_nobody_else() {
    let ledger = Module::new(ADMIN, REGISTRAR);
    assert_eq!(ledger.admin_role(), ADMIN);
    assert_eq!(ledger.registrar_role(), REGISTRAR);
    assert_eq!(ledger.rates(BOB), None);
    assert_eq!(ledger.entered(BOB), None);
    assert_eq!(ledger.creditors(BOB), None);
    assert_eq!(ledger.check_if_registered(BOB), Err(Error::NotRegistered));
}

#[test]
fn credit_is_rounded_down() {
    assert_eq!(MILLIS_PER_HOUR, 3_600_000);
    assert_eq!(Module::calculate_credit(36_000_000, 10), 100);
    assert_eq!(Module::calculate_credit(HOUR, 5), 5);
    assert_eq!(Module::calculate_credit(0, 10), 0);
    assert_eq!(Module::calculate_credit(HOUR, 0), 0);
    assert_eq!(Module::calculate_credit(HOUR - 1, 1), 0);
    assert_eq!(Module::calculate_credit(2 * HOUR - 1, 1), 1);
    assert_eq!(Module::calculate_credit(1, 3_599_999), 0);
    assert_eq!(Module::calculate_credit(1, 3_600_000), 1);
    assert_eq!(Module::calculate_credit(1_800_000, 3), 1);
    assert_eq!(Module::calculate_credit(5_400_000, 7), 10);
    // the product need not fit a balance, only the credit
    assert_eq!(Module::calculate_credit(u64::MAX, 2), 10_248_191_152_060);
    assert_eq!(Module::calculate_credit(u64::MAX, 3_600_000), u64::MAX);
}

#[test]
fn setup_makes_the_first_administrator() {
    let mut registry = access::Module::new();
    let ledger = Module::new(ADMIN, REGISTRAR);
    assert_eq!(ledger.setup(&mut registry, ALICE), Ok(Event::AdminSetup(ALICE)));
    assert_eq!(registry.get_admin_of_role(REGISTRAR), ADMIN);
    assert_eq!(registry.roles(ADMIN), vec![ALICE]);
    assert_eq!(registry.roles(REGISTRAR), Vec::<u64>::new());
    // a second setup finds the registrars' role taken and changes nothing
    assert_eq!(
        ledger.setup(&mut registry, BOB),
        Err(Error::Access(access::Error::AdminRoleExists))
    );
    assert_eq!(registry.roles(ADMIN), vec![ALICE]);
}

#[test]
fn setup_is_all_or_nothing() {
    let mut registry = access::Module::new();
    let ledger = Module::new(ADMIN, REGISTRAR);
    assert_eq!(registry.add_account_to_role(ADMIN, ALICE), Ok(()));
    assert_eq!(
        ledger.setup(&mut registry, ALICE),
        Err(Error::Access(access::Error::AlreadyMember))
    );
    assert!(!registry.has_admin_role(REGISTRAR));
    assert_eq!(registry.get_admin_of_role(REGISTRAR), Role::zero());
    assert_eq!(registry.roles(ADMIN), vec![ALICE]);
    assert_eq!(ledger.setup(&mut registry, BOB), Ok(Event::AdminSetup(BOB)));
    assert_eq!(registry.roles(ADMIN), vec![ALICE, BOB]);
    assert_eq!(registry.get_admin_of_role(REGISTRAR), ADMIN);
}

#[test]
fn registering_asks_for_an_administrator_of_the_registrars() {
    let (mut registry, mut ledger) = new_test_ext();
    let before = snapshot(&ledger);
    assert_eq!(
        ledger.register_account(&registry, BOB, BOB, Some(RATE)),
        Err(Error::Access(access::Error::AdminRequired))
    );
    assert_eq!(snapshot(&ledger), before);
    // holding the registrars' role is not administering it
    assert!(registry.grant_role(ALICE, REGISTRAR, CHARLIE).is_ok());
    assert_eq!(
        ledger.register_account(&registry, CHARLIE, BOB, Some(RATE)),
        Err(Error::Access(access::Error::AdminRequired))
    );
    assert_eq!(
        ledger.register_account(&registry, ALICE, BOB, Some(RATE)),
        Ok(Event::AccountRegistered(BOB, Some(RATE)))
    );
    // the sender is looked at before the account
    assert_eq!(
        ledger.register_account(&registry, CHARLIE, BOB, Some(RATE)),
        Err(Error::Access(access::Error::AdminRequired))
    );
    assert_eq!(ledger.check_if_registered(BOB), Ok(()));
}

#[test]
fn a_rate_can_be_absent_and_can_be_changed_by_anyone() {
    let (registry, mut ledger) = new_test_ext();
    // registering without a rate reports it and leaves the account unregistered
    assert_eq!(
        ledger.register_account(&registry, ALICE, BOB, None),
        Ok(Event::AccountRegistered(BOB, None))
    );
    assert_eq!(ledger.rates(BOB), None);
    assert_eq!(ledger.check_if_registered(BOB), Err(Error::NotRegistered));
    assert_eq!(
        ledger.update_rate_for_account(BOB, Some(7)),
        Event::AccountUpdated(BOB, Some(7))
    );
    assert_eq!(ledger.rates(BOB), Some(7));
    assert_eq!(
        ledger.update_rate_for_account(BOB, Some(9)),
        Event::AccountUpdated(BOB, Some(9))
    );
    assert_eq!(ledger.rates(BOB), Some(9));
    assert_eq!(ledger.rates(CHARLIE), None);
    assert_eq!(
        ledger.update_rate_for_account(BOB, None),
        Event::AccountUpdated(BOB, None)
    );
    assert_eq!(ledger.rates(BOB), None);
}

#[test]
fn credit_adds_up_over_visits() {
    let (registry, mut ledger) = new_test_ext();
    assert!(ledger.register_account(&registry, ALICE, BOB, Some(3)).is_ok());
    assert_eq!(ledger.enter_account(BOB, 1_000), Ok(Event::AccountEntered(BOB)));
    assert_eq!(ledger.entered(BOB), Some(1_000));
    // half an hour at 3 per hour earns 1, the half unit is dropped
    assert!(ledger.exit_in_range(BOB, 1_000 + HOUR / 2));
    assert_eq!(ledger.exit_account(BOB, 1_000 + HOUR / 2), Ok(Event::AccountExited(BOB)));
    assert_eq!(ledger.entered(BOB), None);
    assert_eq!(ledger.creditors(BOB), Some(1));
    // a visit of no length earns nothing
    assert_eq!(ledger.enter_account(BOB, 5 * HOUR), Ok(Event::AccountEntered(BOB)));
    assert!(ledger.exit_in_range(BOB, 5 * HOUR));
    assert_eq!(ledger.exit_account(BOB, 5 * HOUR), Ok(Event::AccountExited(BOB)));
    assert_eq!(ledger.creditors(BOB), Some(1));
    // the rate at check-out counts
    assert_eq!(ledger.enter_account(BOB, 6 * HOUR), Ok(Event::AccountEntered(BOB)));
    assert_eq!(ledger.update_rate_for_account(BOB, Some(4)), Event::AccountUpdated(BOB, Some(4)));
    assert!(ledger.exit_in_range(BOB, 8 * HOUR));
    assert_eq!(ledger.exit_account(BOB, 8 * HOUR), Ok(Event::AccountExited(BOB)));
    assert_eq!(ledger.creditors(BOB), Some(9));
    assert_eq!(ledger.creditors(ALICE), None);
}

#[test]
fn a_visit_without_earnings_still_opens_a_credit() {
    let (registry, mut ledger) = new_test_ext();
    assert!(ledger.register_account(&registry, ALICE, BOB, Some(0)).is_ok());
    assert!(ledger.enter_account(BOB, 0).is_ok());
    assert!(ledger.exit_in_range(BOB, HOUR));
    assert!(ledger.exit_account(BOB, HOUR).is_ok());
    assert_eq!(ledger.creditors(BOB), Some(0));
    let mut bank = Bank::new();
    assert_eq!(
        ledger.withdraw(&mut bank, BOB, 0),
        Ok(Event::AccountWithdrawal(BOB, 0))
    );
    assert_eq!(ledger.creditors(BOB), None);
}

#[test]
fn exit_out_of_range_is_told_apart() {
    let (registry, mut ledger) = new_test_ext();
    assert!(ledger.register_account(&registry, ALICE, BOB, Some(u64::MAX)).is_ok());
    assert!(ledger.enter_account(BOB, 10 * HOUR).is_ok());
    // the clock has run backwards
    assert!(!ledger.exit_in_range(BOB, 10 * HOUR - 1));
    // the credit would not fit
    assert!(!ledger.exit_in_range(BOB, 11 * HOUR + 1));
    assert!(ledger.exit_in_range(BOB, 11 * HOUR));
    assert_eq!(ledger.exit_account(BOB, 11 * HOUR), Ok(Event::AccountExited(BOB)));
    assert_eq!(ledger.creditors(BOB), Some(u64::MAX));
    // nothing more fits on top
    assert!(ledger.update_rate_for_account(BOB, Some(1)) == Event::AccountUpdated(BOB, Some(1)));
    assert!(ledger.enter_account(BOB, 0).is_ok());
    assert!(ledger.exit_in_range(BOB, HOUR - 1));
    assert!(!ledger.exit_in_range(BOB, HOUR));
    // an account that is not checked in is always in range
    assert!(ledger.exit_in_range(CHARLIE, 0));
}

#[test]
fn a_checked_exit_refuses_what_is_out_of_range() {
    let (registry, mut ledger) = new_test_ext();
    assert!(ledger.register_account(&registry, ALICE, BOB, Some(u64::MAX)).is_ok());
    assert_eq!(ledger.try_exit_account(BOB, 0), Some(Err(Error::NotCheckedIn)));
    assert_eq!(ledger.try_exit_account(CHARLIE, 0), Some(Err(Error::NotRegistered)));
    assert!(ledger.enter_account(BOB, 10 * HOUR).is_ok());
    let before = snapshot(&ledger);
    assert_eq!(ledger.try_exit_account(BOB, 10 * HOUR - 1), None);
    assert_eq!(ledger.try_exit_account(BOB, 11 * HOUR + 1), None);
    assert_eq!(snapshot(&ledger), before);
    assert_eq!(
        ledger.try_exit_account(BOB, 10 * HOUR + HOUR / 2),
        Some(Ok(Event::AccountExited(BOB)))
    );
    assert_eq!(ledger.creditors(BOB), Some(u64::MAX / 2));
    assert_eq!(ledger.entered(BOB), None);
}

#[test]
fn an_unregistered_account_cannot_check_out() {
    let (registry, mut ledger) = new_test_ext();
    assert!(ledger.register_account(&registry, ALICE, BOB, Some(RATE)).is_ok());
    assert!(ledger.enter_account(BOB, 0).is_ok());
    assert_eq!(ledger.update_rate_for_account(BOB, None), Event::AccountUpdated(BOB, None));
    assert!(ledger.exit_in_range(BOB, HOUR));
    assert_eq!(ledger.exit_account(BOB, HOUR), Err(Error::NotRegistered));
    assert_eq!(ledger.entered(BOB), Some(0));
    assert_eq!(ledger.enter_account(BOB, HOUR), Err(Error::NotRegistered));
}

#[test]
fn round_trip_and_withdrawal() {
    let (registry, mut ledger) = new_test_ext();
    let pool = Module::account_id();
    let mut bank = Bank::new();
    bank.set_balance(pool, 500);
    assert!(ledger.register_account(&registry, ALICE, ALICE, Some(5)).is_ok());
    assert!(ledger.enter_account(ALICE, 7 * HOUR).is_ok());
    assert!(ledger.exit_in_range(ALICE, 8 * HOUR));
    assert!(ledger.exit_account(ALICE, 8 * HOUR).is_ok());
    assert_eq!(ledger.creditors(ALICE), Some(5));
    assert_eq!(
        ledger.withdraw(&mut bank, ALICE, 5),
        Ok(Event::AccountWithdrawal(ALICE, 5))
    );
    assert_eq!(ledger.creditors(ALICE), None);
    assert_eq!(bank.balance_of(pool), 495);
    assert_eq!(bank.balance_of(ALICE), 5);
    assert_eq!(ledger.withdraw(&mut bank, ALICE, 1), Err(Error::NoCredit));
    assert_eq!(bank.balance_of(pool), 495);
}

#[test]
fn a_failing_transfer_leaves_the_credit() {
    let (registry, mut ledger) = new_test_ext();
    let pool = Module::account_id();
    let mut bank = Bank::new();
    bank.set_balance(pool, 4);
    assert!(ledger.register_account(&registry, ALICE, ALICE, Some(5)).is_ok());
    assert!(ledger.enter_account(ALICE, 0).is_ok());
    assert!(ledger.exit_in_range(ALICE, HOUR));
    assert!(ledger.exit_account(ALICE, HOUR).is_ok());
    assert_eq!(ledger.creditors(ALICE), Some(5));
    let before = snapshot(&ledger);
    assert_eq!(ledger.withdraw(&mut bank, ALICE, 5), Err(Error::TransferFailed));
    assert_eq!(snapshot(&ledger), before);
    assert_eq!(ledger.creditors(ALICE), Some(5));
    assert_eq!(bank.balance_of(pool), 4);
    assert_eq!(bank.balance_of(ALICE), 0);
    // what the pool can pay goes through, and the rest of the credit stays
    assert_eq!(
        ledger.withdraw(&mut bank, ALICE, 3),
        Ok(Event::AccountWithdrawal(ALICE, 3))
    );
    assert_eq!(ledger.creditors(ALICE), Some(2));
    assert_eq!(bank.balance_of(pool), 1);
    assert_eq!(bank.balance_of(ALICE), 3);
}

#[test]
fn an_overdraw_is_refused() {
    let (registry, mut ledger) = new_test_ext();
    let pool = Module::account_id();
    let mut bank = Bank::new();
    bank.set_balance(pool, 500);
    assert!(ledger.register_account(&registry, ALICE, BOB, Some(5)).is_ok());
    assert!(ledger.enter_account(BOB, 0).is_ok());
    assert!(ledger.exit_in_range(BOB, HOUR));
    assert!(ledger.exit_account(BOB, HOUR).is_ok());
    let before = snapshot(&ledger);
    assert_eq!(ledger.withdraw(&mut bank, BOB, 6), Err(Error::InsufficientCredit));
    assert_eq!(ledger.withdraw(&mut bank, BOB, u64::MAX), Err(Error::InsufficientCredit));
    assert_eq!(snapshot(&ledger), before);
    assert_eq!(ledger.creditors(BOB), Some(5));
    assert_eq!(bank.balance_of(pool), 500);
    assert_eq!(bank.balance_of(BOB), 0);
    // asking for nothing is no overdraw
    assert_eq!(ledger.withdraw(&mut bank, BOB, 0), Ok(Event::AccountWithdrawal(BOB, 0)));
    assert_eq!(ledger.creditors(BOB), Some(5));
}

#[test]
fn a_deposit_goes_to_the_pool() {
    let ledger = Module::new(ADMIN, REGISTRAR);
    let pool = Module::account_id();
    let mut bank = Bank::new();
    bank.set_balance(200, 500);
    assert_eq!(ledger.deposit(&mut bank, 200, 120), Ok(Event::Deposit(120)));
    assert_eq!(bank.balance_of(200), 380);
    assert_eq!(bank.balance_of(pool), 120);
    assert_eq!(ledger.deposit(&mut bank, 200, 381), Err(Error::TransferFailed));
    assert_eq!(bank.balance_of(200), 380);
    assert_eq!(bank.balance_of(pool), 120);
    assert_eq!(ledger.deposit(&mut bank, BOB, 1), Err(Error::TransferFailed));
    assert_eq!(ledger.deposit(&mut bank, BOB, 0), Ok(Event::Deposit(0)));
    assert_eq!(bank.balance_of(pool), 120);
}

#[test]
fn a_bank_moves_funds_or_declines() {
    let mut bank = Bank::new();
    assert_eq!(bank.balance_of(ALICE), 0);
    bank.set_balance(ALICE, 10);
    bank.set_balance(BOB, u64::MAX - 3);
    assert_eq!(bank.transfer(ALICE, BOB, 4), Err(TransferError::Overflow));
    assert_eq!(bank.balance_of(ALICE), 10);
    assert_eq!(bank.balance_of(BOB), u64::MAX - 3);
    assert_eq!(bank.transfer(ALICE, BOB, 3), Ok(()));
    assert_eq!(bank.balance_of(ALICE), 7);
    assert_eq!(bank.balance_of(BOB), u64::MAX);
    assert_eq!(bank.transfer(ALICE, CHARLIE, 8), Err(TransferError::InsufficientBalance));
    assert_eq!(bank.transfer(ALICE, CHARLIE, 7), Ok(()));
    assert_eq!(bank.balance_of(ALICE), 0);
    assert_eq!(bank.balance_of(CHARLIE), 7);
    // to oneself nothing moves
    assert_eq!(bank.transfer(BOB, BOB, u64::MAX), Ok(()));
    assert_eq!(bank.balance_of(BOB), u64::MAX);
    assert_eq!(bank.transfer(CHARLIE, CHARLIE, 8), Err(TransferError::InsufficientBalance));
    bank.set_balance(BOB, 1);
    assert_eq!(bank.balance_of(BOB), 1);
}

#[test]
fn every_refusal_has_its_words() {
    assert_eq!(Error::AlreadyRegistered.describe(), "trying to register an existing account");
    assert_eq!(Error::NotRegistered.describe(), "account not registered");
    let all = [
        Error::AlreadyRegistered,
        Error::NotRegistered,
        Error::AlreadyCheckedIn,
        Error::NotCheckedIn,
        Error::NoCredit,
        Error::InsufficientCredit,
        Error::TransferFailed,
        Error::Access(access::Error::AdminRequired),
    ];
    for (i, one) in all.iter().enumerate() {
        for other in &all[i + 1..] {
            assert_ne!(one.describe(), other.describe());
        }
    }
}

/// A currency that declines whatever it is asked.
struct Closed;

impl Currency for Closed {
    fn free_balance(&self, _who: u64) -> u64 {
        0
    }

    fn can_transfer(&self, _from: u64, _to: u64, _amount: u64) -> bool {
        false
    }

    fn transfer(&mut self, _from: u64, _to: u64, _amount: u64) -> Result<(), TransferError> {
        Err(TransferError::InsufficientBalance)
    }
}

#[test]
fn any_currency_can_stand_behind_the_ledger() {
    let (registry, mut ledger) = new_test_ext();
    let mut closed = Closed;
    assert!(ledger.register_account(&registry, ALICE, BOB, Some(RATE)).is_ok());
    assert!(ledger.enter_account(BOB, 0).is_ok());
    assert!(ledger.exit_in_range(BOB, HOUR));
    assert!(ledger.exit_account(BOB, HOUR).is_ok());
    assert_eq!(ledger.creditors(BOB), Some(RATE));
    assert_eq!(ledger.withdraw(&mut closed, BOB, 0), Err(Error::TransferFailed));
    assert_eq!(ledger.withdraw(&mut closed, BOB, RATE), Err(Error::TransferFailed));
    assert_eq!(ledger.withdraw(&mut closed, BOB, RATE + 1), Err(Error::InsufficientCredit));
    assert_eq!(ledger.withdraw(&mut closed, CHARLIE, 0), Err(Error::NoCredit));
    assert_eq!(ledger.creditors(BOB), Some(RATE));
    assert_eq!(ledger.deposit(&mut closed, BOB, 1), Err(Error::TransferFailed));
}
