use banking::account::{deposit_account, register_account, withdraw_amount, Account};
use banking::decimal::Decimal;
use banking::error::BankError;

fn units(n: i64) -> Decimal {
    Decimal::from_units(n).unwrap()
}

fn micros(n: i64) -> Decimal {
    Decimal::from_micros(n).unwrap()
}

fn registered(name: &str) -> Account {
    let mut account = Account::new("PHP");
    assert_eq!(account.register(name), Ok(()));
    account
}

#[test]
fn new_account_is_empty_and_unregistered() {
    let account = Account::new("PHP");
    assert!(!account.is_registered());
    assert_eq!(account.name(), "");
    assert_eq!(account.balance(), Decimal::zero());
    assert_eq!(account.currency_code(), "PHP");
}

#[test]
fn register_sets_the_name_once() {
    let mut account = Account::new("PHP");
    assert_eq!(account.register("Alice"), Ok(()));
    assert!(account.is_registered());
    assert_eq!(account.name(), "Alice");
    assert_eq!(account.balance(), Decimal::zero());
    assert_eq!(account.currency_code(), "PHP");
    assert_eq!(account.register("Bob"), Err(BankError::InvalidState));
    assert_eq!(account.name(), "Alice");
}

#[test]
fn register_with_an_empty_name_leaves_the_account_unregistered() {
    let mut account = Account::new("PHP");
    assert_eq!(account.register(""), Ok(()));
    assert!(!account.is_registered());
    assert_eq!(account.deposit(units(1)), Err(BankError::InvalidState));
    assert_eq!(account.register("Carol"), Ok(()));
    assert_eq!(account.name(), "Carol");
}

#[test]
fn deposit_and_withdraw_need_a_registered_account() {
    let mut account = Account::new("PHP");
    assert_eq!(account.deposit(units(10)), Err(BankError::InvalidState));
    assert_eq!(account.withdraw(units(10)), Err(BankError::InvalidState));
    assert_eq!(account.deposit(units(-10)), Err(BankError::InvalidState));
    assert_eq!(account.balance(), Decimal::zero());
}

#[test]
fn deposit_adds_and_returns_the_new_balance() {
    let mut account = registered("Alice");
    assert_eq!(account.deposit(units(500)), Ok(units(500)));
    assert_eq!(account.deposit(micros(250_000)), Ok(micros(500_250_000)));
    assert_eq!(account.balance(), micros(500_250_000));
}

#[test]
fn withdraw_subtracts_and_returns_the_new_balance() {
    let mut account = registered("Alice");
    account.deposit(units(500)).unwrap();
    assert_eq!(account.withdraw(micros(120_500_000)), Ok(micros(379_500_000)));
    assert_eq!(account.withdraw(micros(379_500_000)), Ok(Decimal::zero()));
    assert_eq!(account.balance(), Decimal::zero());
}

#[test]
fn overdraft_is_refused_and_balance_stays() {
    let mut account = registered("Alice");
    assert_eq!(account.deposit(units(500)), Ok(units(500)));
    assert_eq!(account.withdraw(units(600)), Err(BankError::InsufficientFunds));
    assert_eq!(account.balance(), units(500));
}

#[test]
fn withdrawing_one_millionth_too_much_is_refused() {
    let mut account = registered("Alice");
    account.deposit(units(5)).unwrap();
    assert_eq!(account.withdraw(micros(5_000_001)), Err(BankError::InsufficientFunds));
    assert_eq!(account.balance(), units(5));
    assert_eq!(account.withdraw(micros(1)), Ok(micros(4_999_999)));
}

#[test]
fn withdrawing_from_an_empty_account_is_refused() {
    let mut account = registered("Alice");
    assert_eq!(account.withdraw(micros(1)), Err(BankError::InsufficientFunds));
    assert_eq!(account.balance(), Decimal::zero());
}

#[test]
fn zero_and_negative_amounts_are_refused() {
    let mut account = registered("Alice");
    account.deposit(units(100)).unwrap();
    assert_eq!(account.deposit(Decimal::zero()), Err(BankError::InvalidAmount));
    assert_eq!(account.deposit(units(-5)), Err(BankError::InvalidAmount));
    assert_eq!(account.deposit(micros(-1)), Err(BankError::InvalidAmount));
    assert_eq!(account.withdraw(Decimal::zero()), Err(BankError::InvalidAmount));
    assert_eq!(account.withdraw(units(-5)), Err(BankError::InvalidAmount));
    assert_eq!(account.withdraw(units(-500)), Err(BankError::InvalidAmount));
    assert_eq!(account.balance(), units(100));
}

#[test]
fn deposit_then_withdraw_restores_the_balance() {
    let mut account = registered("Alice");
    account.deposit(micros(123_456_789)).unwrap();
    let before = account.balance();
    assert_eq!(account.deposit(micros(987_654_321)), Ok(micros(1_111_111_110)));
    assert_eq!(account.withdraw(micros(987_654_321)), Ok(before));
    assert_eq!(account.balance(), before);
    assert_eq!(account.name(), "Alice");
}

#[test]
fn deposit_beyond_the_limit_is_refused() {
    let mut account = registered("Alice");
    let limit = units(1_000_000_000_000);
    assert_eq!(account.deposit(limit), Ok(limit));
    assert_eq!(account.deposit(micros(1)), Err(BankError::InvalidAmount));
    assert_eq!(account.balance(), limit);
    assert_eq!(account.withdraw(limit), Ok(Decimal::zero()));
}

#[test]
fn register_account_registers_once() {
    let mut account = Account::new("PHP");
    assert_eq!(register_account(&mut account, "Alice"), Ok(()));
    assert_eq!(account.name(), "Alice");
    assert_eq!(register_account(&mut account, "Bob"), Err(BankError::InvalidState));
    assert_eq!(account.name(), "Alice");
}

#[test]
fn deposit_account_reads_the_amount() {
    let mut account = registered("Alice");
    assert_eq!(deposit_account(&mut account, "500"), Ok(units(500)));
    assert_eq!(deposit_account(&mut account, "0.25"), Ok(micros(500_250_000)));
    assert_eq!(deposit_account(&mut account, "+1.5"), Ok(micros(501_750_000)));
    assert_eq!(deposit_account(&mut account, "1e3"), Ok(micros(1_501_750_000)));
    assert_eq!(deposit_account(&mut account, "0.0000005"), Ok(micros(1_501_750_001)));
    assert_eq!(account.balance(), micros(1_501_750_001));
}

#[test]
fn deposit_account_refuses_what_is_no_positive_number() {
    let mut account = registered("Alice");
    deposit_account(&mut account, "10").unwrap();
    for entered in ["", "\n", "abc", "inf", "NaN", "0", "0.0", "-3", "5 5", "1 .5", "1,5", "0.0000004"] {
        assert_eq!(deposit_account(&mut account, entered), Err(BankError::InvalidAmount));
        assert_eq!(account.balance(), units(10));
    }
}

#[test]
fn entered_lines_are_trimmed() {
    let mut account = Account::new("PHP");
    assert_eq!(register_account(&mut account, "  Alice Smith \n"), Ok(()));
    assert_eq!(account.name(), "Alice Smith");
    assert_eq!(deposit_account(&mut account, " 500\n"), Ok(units(500)));
    assert_eq!(deposit_account(&mut account, "\t0.5 \r\n"), Ok(micros(500_500_000)));
    assert_eq!(withdraw_amount(&mut account, "  500.5\n"), Ok(Decimal::zero()));
}

#[test]
fn register_account_with_a_blank_line_leaves_the_account_unregistered() {
    let mut account = Account::new("PHP");
    assert_eq!(register_account(&mut account, "   \n"), Ok(()));
    assert!(!account.is_registered());
    assert_eq!(account.name(), "");
}

#[test]
fn deposit_account_checks_the_account_first() {
    let mut account = Account::new("PHP");
    assert_eq!(deposit_account(&mut account, "abc"), Err(BankError::InvalidState));
    assert_eq!(deposit_account(&mut account, "5"), Err(BankError::InvalidState));
    assert_eq!(withdraw_amount(&mut account, "abc"), Err(BankError::InvalidState));
    assert_eq!(withdraw_amount(&mut account, "5"), Err(BankError::InvalidState));
}

#[test]
fn withdraw_amount_reads_the_amount() {
    let mut account = registered("Alice");
    deposit_account(&mut account, "500").unwrap();
    assert_eq!(withdraw_amount(&mut account, "600"), Err(BankError::InsufficientFunds));
    assert_eq!(account.balance(), units(500));
    assert_eq!(withdraw_amount(&mut account, "499.99"), Ok(micros(10_000)));
    assert_eq!(withdraw_amount(&mut account, "x"), Err(BankError::InvalidAmount));
    assert_eq!(withdraw_amount(&mut account, "0"), Err(BankError::InvalidAmount));
    assert_eq!(withdraw_amount(&mut account, "-1"), Err(BankError::InvalidAmount));
    assert_eq!(account.balance(), micros(10_000));
}
