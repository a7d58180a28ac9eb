//! A small banking engine for one account.
//!
//! * [`account`] is the ledger: the account with its name, balance and
//!   currency, and the rules for registering, depositing and withdrawing.
//! * [`currency`] is the registry of currencies with their exchange rates
//!   against one base currency, and the conversion between any two of them.
//! * [`interest`] projects a balance, day by day, under daily compounding.
//! * [`decimal`] is the exact fixed-point number that all amounts and rates
//!   are made of, and [`input`] reads such numbers, and the other entries of
//!   a user, from text.
//! * [`error`] lists the ways in which an operation can be refused.
//! * [`ordered_map`] states what is taken for granted of the map that the
//!   registry is kept in.
//!
//! Nothing here reads or writes anything but its arguments, and no function
//! panics: every refusal is a value of [`error::BankError`], and a refused
//! operation changes nothing.

pub mod account;
pub mod currency;
pub mod decimal;
pub mod error;
pub mod input;
pub mod interest;
pub mod ordered_map;
