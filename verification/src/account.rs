//! The account ledger: one account with a name, a balance and a currency.
//!
//! An account starts out unregistered, with an empty name and a balance of
//! zero. It is registered once, by giving it a name; from then on money can
//! be deposited and withdrawn. The balance never falls below zero.

use vstd::prelude::*;
use crate::decimal::{representable, Decimal, LIMIT};
use crate::error::BankError;
use crate::input::{decimal_micros, parse_decimal, trim, trimmed};

verus! {

/// What an account holds, as mathematical values.
pub struct AccountView {
    /// The holder's name; empty while the account is unregistered.
    pub name: Seq<char>,
    /// The balance in millionths.
    pub balance: int,
    /// The code of the currency the balance is held in.
    pub currency_code: Seq<char>,
}

impl AccountView {
    /// Whether the account has been given a name.
    pub open spec fn registered(self) -> bool {
        self.name.len() > 0
    }

    /// Whether the balance is one that an account can hold.
    pub open spec fn valid(self) -> bool {
        0 <= self.balance <= LIMIT
    }

    /// The outcome of registering under `name`: the account as it is
    /// afterwards, or the refusal.
    pub open spec fn register(self, name: Seq<char>) -> Result<AccountView, BankError> {
        if self.registered() {
            Err(BankError::InvalidState)
        } else {
            Ok(AccountView { name, ..self })
        }
    }

    /// The outcome of depositing `amount` millionths.
    pub open spec fn deposit(self, amount: int) -> Result<AccountView, BankError> {
        if !self.registered() {
            Err(BankError::InvalidState)
        } else if amount <= 0 || !representable(self.balance + amount) {
            Err(BankError::InvalidAmount)
        } else {
            Ok(AccountView { balance: self.balance + amount, ..self })
        }
    }

    /// The outcome of registering under the name on the line `entered`.
    pub open spec fn register_entered(self, entered: Seq<char>) -> Result<AccountView, BankError> {
        self.register(trimmed(entered))
    }

    /// The outcome of depositing the amount that the line `entered` spells.
    pub open spec fn deposit_entered(self, entered: Seq<char>) -> Result<AccountView, BankError> {
        if !self.registered() {
            Err(BankError::InvalidState)
        } else {
            match decimal_micros(trimmed(entered)) {
                Some(amount) => self.deposit(amount),
                None => Err(BankError::InvalidAmount),
            }
        }
    }

    /// The outcome of withdrawing the amount that the line `entered` spells.
    pub open spec fn withdraw_entered(self, entered: Seq<char>) -> Result<AccountView, BankError> {
        if !self.registered() {
            Err(BankError::InvalidState)
        } else {
            match decimal_micros(trimmed(entered)) {
                Some(amount) => self.withdraw(amount),
                None => Err(BankError::InvalidAmount),
            }
        }
    }

    /// The outcome of withdrawing `amount` millionths.
    pub open spec fn withdraw(self, amount: int) -> Result<AccountView, BankError> {
        if !self.registered() {
            Err(BankError::InvalidState)
        } else if amount <= 0 {
            Err(BankError::InvalidAmount)
        } else if amount > self.balance {
            Err(BankError::InsufficientFunds)
        } else {
            Ok(AccountView { balance: self.balance - amount, ..self })
        }
    }
}

/// A bank account.
#[derive(Debug)]
pub struct Account {
    name: String,
    balance: Decimal,
    currency_code: String,
}

impl View for Account {
    type V = AccountView;

    closed spec fn view(&self) -> AccountView {
        AccountView {
            name: self.name@,
            balance: self.balance@,
            currency_code: self.currency_code@,
        }
    }
}

impl Account {
    /// What holds of every `Account`: its balance is not below zero.
    #[verifier::type_invariant]
    pub open spec fn balance_not_negative(self) -> bool {
        self@.valid()
    }

    /// A new, unregistered account in the given currency, with nothing in it.
    pub fn new(currency_code: &str) -> (account: Account)
        ensures
            account@ == (AccountView {
                name: Seq::<char>::empty(),
                balance: 0,
                currency_code: currency_code@,
            }),
    {
        Account {
            name: String::new(),
            balance: Decimal::zero(),
            currency_code: currency_code.to_owned(),
        }
    }

    /// The holder's name; empty while the account is unregistered.
    pub fn name(&self) -> (name: &str)
        ensures
            name@ == self@.name,
    {
        self.name.as_str()
    }

    /// The balance. It is never below zero.
    pub fn balance(&self) -> (balance: Decimal)
        ensures
            balance@ == self@.balance,
            self@.valid(),
    {
        proof {
            use_type_invariant(self);
        }
        self.balance
    }

    /// The code of the currency that the balance is held in.
    pub fn currency_code(&self) -> (code: &str)
        ensures
            code@ == self@.currency_code,
    {
        self.currency_code.as_str()
    }

    /// Whether the account has been registered.
    pub fn is_registered(&self) -> (registered: bool)
        ensures
            registered == self@.registered(),
    {
        !self.name.as_str().is_empty()
    }

    /// Registers the account under `name`. An account that is registered
    /// already is left as it is and `InvalidState` is returned.
    pub fn register(&mut self, name: &str) -> (outcome: Result<(), BankError>)
        ensures
            match old(self)@.register(name@) {
                Ok(after) => outcome is Ok && final(self)@ == after,
                Err(e) => outcome == Err::<(), BankError>(e) && final(self)@ == old(self)@,
            },
    {
        proof {
            use_type_invariant(&*self);
        }
        if self.is_registered() {
            return Err(BankError::InvalidState);
        }
        self.name = name.to_owned();
        Ok(())
    }

    /// Adds `amount` to the balance and returns the new balance.
    ///
    /// Refused with `InvalidState` on an unregistered account; otherwise with
    /// `InvalidAmount` where `amount` is not above zero or the new balance
    /// would leave the representable range. A refusal changes nothing.
    pub fn deposit(&mut self, amount: Decimal) -> (outcome: Result<Decimal, BankError>)
        ensures
            match old(self)@.deposit(amount@) {
                Ok(after) => final(self)@ == after && outcome is Ok && outcome->Ok_0@
                    == after.balance,
                Err(e) => final(self)@ == old(self)@ && outcome == Err::<Decimal, BankError>(e),
            },
    {
        proof {
            use_type_invariant(&*self);
        }
        if !self.is_registered() {
            return Err(BankError::InvalidState);
        }
        if !amount.is_positive() {
            return Err(BankError::InvalidAmount);
        }
        match self.balance.checked_add(amount) {
            Some(sum) => {
                self.balance = sum;
                Ok(sum)
            },
            None => Err(BankError::InvalidAmount),
        }
    }

    /// Takes `amount` from the balance and returns the new balance.
    ///
    /// Refused with `InvalidState` on an unregistered account; otherwise with
    /// `InvalidAmount` where `amount` is not above zero; otherwise with
    /// `InsufficientFunds` where `amount` is more than the balance. A refusal
    /// changes nothing.
    pub fn withdraw(&mut self, amount: Decimal) -> (outcome: Result<Decimal, BankError>)
        ensures
            match old(self)@.withdraw(amount@) {
                Ok(after) => final(self)@ == after && outcome is Ok && outcome->Ok_0@
                    == after.balance,
                Err(e) => final(self)@ == old(self)@ && outcome == Err::<Decimal, BankError>(e),
            },
    {
        proof {
            use_type_invariant(&*self);
        }
        if !self.is_registered() {
            return Err(BankError::InvalidState);
        }
        if !amount.is_positive() {
            return Err(BankError::InvalidAmount);
        }
        if amount.exceeds(self.balance) {
            return Err(BankError::InsufficientFunds);
        }
        let rest = self.balance.minus(amount);
        self.balance = rest;
        Ok(rest)
    }
}

/// Registers `account` under the name on the line `name`, white space around
/// it set aside. An account that is registered already is left as it is and
/// `InvalidState` is returned.
pub fn register_account(account: &mut Account, name: &str) -> (outcome: Result<(), BankError>)
    ensures
        match old(account)@.register_entered(name@) {
            Ok(after) => outcome is Ok && final(account)@ == after,
            Err(e) => outcome == Err::<(), BankError>(e) && final(account)@ == old(account)@,
        },
{
    account.register(trim(name))
}

/// Deposits the amount that the line `amount` spells, white space around it
/// set aside, and returns the new balance.
///
/// Refused with `InvalidState` on an unregistered account; otherwise with
/// `InvalidAmount` where `amount` is no decimal number, is not above zero, or
/// would take the balance out of the representable range. A refusal changes
/// nothing.
pub fn deposit_account(account: &mut Account, amount: &str) -> (outcome: Result<
    Decimal,
    BankError,
>)
    ensures
        match old(account)@.deposit_entered(amount@) {
            Ok(after) => final(account)@ == after && outcome is Ok && outcome->Ok_0@
                == after.balance,
            Err(e) => final(account)@ == old(account)@ && outcome == Err::<Decimal, BankError>(e),
        },
{
    if !account.is_registered() {
        return Err(BankError::InvalidState);
    }
    match parse_decimal(trim(amount)) {
        Some(value) => account.deposit(value),
        None => Err(BankError::InvalidAmount),
    }
}

/// Withdraws the amount that the line `amount` spells, white space around it
/// set aside, and returns the new balance.
///
/// Refused with `InvalidState` on an unregistered account; otherwise with
/// `InvalidAmount` where `amount` is no decimal number or is not above zero;
/// otherwise with `InsufficientFunds` where it is more than the balance. A
/// refusal changes nothing.
pub fn withdraw_amount(account: &mut Account, amount: &str) -> (outcome: Result<
    Decimal,
    BankError,
>)
    ensures
        match old(account)@.withdraw_entered(amount@) {
            Ok(after) => final(account)@ == after && outcome is Ok && outcome->Ok_0@
                == after.balance,
            Err(e) => final(account)@ == old(account)@ && outcome == Err::<Decimal, BankError>(e),
        },
{
    if !account.is_registered() {
        return Err(BankError::InvalidState);
    }
    match parse_decimal(trim(amount)) {
        Some(value) => account.withdraw(value),
        None => Err(BankError::InvalidAmount),
    }
}

/// A deposit followed by a withdrawal of the same amount gives back the
/// account as it was before the deposit, whenever the deposit is accepted.
pub proof fn lemma_deposit_then_withdraw_restores(account: AccountView, amount: int)
    requires
        account.valid(),
        account.registered(),
        amount > 0,
        representable(account.balance + amount),
    ensures
        account.deposit(amount) is Ok,
        account.deposit(amount)->Ok_0.withdraw(amount) == Ok::<AccountView, BankError>(account),
{
}

/// A withdrawal of more than the balance is refused with `InsufficientFunds`,
/// whatever the balance of a registered account is.
pub proof fn lemma_overdraft_is_refused(account: AccountView, amount: int)
    requires
        account.valid(),
        account.registered(),
        amount > account.balance,
    ensures
        account.withdraw(amount) == Err::<AccountView, BankError>(BankError::InsufficientFunds),
{
}

/// An amount that is zero or negative is refused with `InvalidAmount` by both
/// deposit and withdrawal on a registered account.
pub proof fn lemma_nonpositive_amount_is_refused(account: AccountView, amount: int)
    requires
        account.registered(),
        amount <= 0,
    ensures
        account.deposit(amount) == Err::<AccountView, BankError>(BankError::InvalidAmount),
        account.withdraw(amount) == Err::<AccountView, BankError>(BankError::InvalidAmount),
{
}

/// A line that spells no decimal number is refused with `InvalidAmount` by
/// both deposit and withdrawal on a registered account.
pub proof fn lemma_unreadable_amount_is_refused(account: AccountView, entered: Seq<char>)
    requires
        account.registered(),
        decimal_micros(trimmed(entered)) is None,
    ensures
        account.deposit_entered(entered) == Err::<AccountView, BankError>(
            BankError::InvalidAmount,
        ),
        account.withdraw_entered(entered) == Err::<AccountView, BankError>(
            BankError::InvalidAmount,
        ),
{
}

/// No operation ever takes the balance of a valid account below zero or out of
/// range.
pub proof fn lemma_balance_stays_valid(account: AccountView, name: Seq<char>, amount: int)
    requires
        account.valid(),
    ensures
        account.register(name) matches Ok(after) ==> after.valid(),
        account.deposit(amount) matches Ok(after) ==> after.valid(),
        account.withdraw(amount) matches Ok(after) ==> after.valid(),
{
}

} // verus!
