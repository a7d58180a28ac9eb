//! The ways in which a banking operation can be refused.

use vstd::prelude::*;

verus! {

/// Why an operation was refused. Every refusal leaves the state it was asked
/// to change exactly as it was.
#[derive(Clone, Copy, Debug, PartialEq, Eq, Structural)]
pub enum BankError {
    /// The account is not in the state the operation needs: not yet
    /// registered, or registered already.
    InvalidState,
    /// An amount is not a number, lies outside the representable range, or is
    /// zero or negative where a positive amount is needed.
    InvalidAmount,
    /// A withdrawal asks for more than the balance.
    InsufficientFunds,
    /// No currency with that code is in the registry.
    UnknownCurrency,
    /// An exchange rate or an interest rate is not a number, lies outside the
    /// representable range, or is negative.
    InvalidRate,
    /// The rate of the base currency is fixed and cannot be recorded anew.
    ImmutableBaseRate,
    /// A conversion involves a currency whose rate was never recorded.
    RateNotSet,
    /// A projection was asked for fewer than one day.
    InvalidDayCount,
}

} // verus!
