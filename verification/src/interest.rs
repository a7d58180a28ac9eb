//! The interest projector: how a balance grows, day by day, under interest
//! that is compounded daily.
//!
//! Each day earns the balance of the day before times the annual rate,
//! divided by the days of a year and cut towards zero at the sixth decimal.
//! The rows that come out show interest and balance rounded to hundredths;
//! the balance that is carried to the next day is not rounded.

use vstd::prelude::*;
use crate::decimal::{
    magnitude, quotient_toward_zero, representable, rounded_to_cents, Decimal, LIMIT, SCALE,
};
use crate::account::Account;
use crate::error::BankError;
use crate::input::{day_count_value, parse_day_count, trim, trimmed};

verus! {

/// The number of days by which an annual rate is divided.
pub const DAYS_PER_YEAR: i64 = 365;

/// The annual rate that accounts earn, in millionths: five per cent.
pub const ANNUAL_RATE: i64 = 50_000;

/// The interest that `balance` earns in one day at `annual_rate`, all in
/// millionths.
pub open spec fn daily_interest(balance: int, annual_rate: int) -> int {
    quotient_toward_zero(balance * annual_rate, DAYS_PER_YEAR * SCALE)
}

/// The balance after `days` days of interest, starting from `start`.
pub open spec fn balance_after(start: int, annual_rate: int, days: nat) -> int
    decreases days,
{
    if days == 0 {
        start
    } else {
        let before = balance_after(start, annual_rate, (days - 1) as nat);
        before + daily_interest(before, annual_rate)
    }
}

/// One row of a projection, as mathematical values.
pub struct RowView {
    /// The day, counted from one.
    pub day: int,
    /// The interest earned on that day, rounded to hundredths.
    pub interest: int,
    /// The balance at the end of that day, rounded to hundredths.
    pub running_balance: int,
}

/// The row for day `day`, counted from one, of the projection from `start`.
pub open spec fn projection_row(start: int, annual_rate: int, day: int) -> RowView {
    RowView {
        day,
        interest: rounded_to_cents(
            daily_interest(balance_after(start, annual_rate, (day - 1) as nat), annual_rate),
        ),
        running_balance: rounded_to_cents(balance_after(start, annual_rate, day as nat)),
    }
}

/// The outcome of projecting `start` over `days` days: the rows for the days
/// one to `days`, or the refusal.
pub open spec fn projection(start: int, annual_rate: int, days: int) -> Result<
    Seq<RowView>,
    BankError,
> {
    if days < 1 {
        Err(BankError::InvalidDayCount)
    } else if annual_rate < 0 {
        Err(BankError::InvalidRate)
    } else if !representable(balance_after(start, annual_rate, days as nat)) {
        Err(BankError::InvalidAmount)
    } else {
        Ok(Seq::new(days as nat, |i: int| projection_row(start, annual_rate, i + 1)))
    }
}

/// The outcome of projecting `balance` at the standing annual rate over the
/// number of days that the line `entered` spells.
pub open spec fn projection_entered(balance: int, entered: Seq<char>) -> Result<
    Seq<RowView>,
    BankError,
> {
    match day_count_value(trimmed(entered)) {
        Some(days) => projection(balance, ANNUAL_RATE as int, days),
        None => Err(BankError::InvalidDayCount),
    }
}

/// One row of a projection.
#[derive(Clone, Copy, Debug, PartialEq, Eq, Structural)]
pub struct ProjectionRow {
    /// The day, counted from one.
    pub day: i32,
    /// The interest earned on that day, rounded to hundredths.
    pub interest: Decimal,
    /// The balance at the end of that day, rounded to hundredths.
    pub running_balance: Decimal,
}

impl View for ProjectionRow {
    type V = RowView;

    open spec fn view(&self) -> RowView {
        RowView {
            day: self.day as int,
            interest: self.interest@,
            running_balance: self.running_balance@,
        }
    }
}

/// The views of `rows`, in order.
pub open spec fn row_views(rows: Seq<ProjectionRow>) -> Seq<RowView> {
    Seq::new(rows.len(), |i: int| rows[i]@)
}

/// A projection over fewer than one day is refused with `InvalidDayCount`,
/// whatever the balance and the rate.
pub proof fn lemma_projection_needs_a_day(start: int, annual_rate: int, days: int)
    requires
        days < 1,
    ensures
        projection(start, annual_rate, days) == Err::<Seq<RowView>, BankError>(
            BankError::InvalidDayCount,
        ),
{
}

/// A projection that is granted has one row for each day, numbered from one,
/// and each row shows the balance of the day before plus the day's interest,
/// both rounded only for the row.
pub proof fn lemma_projection_rows(start: int, annual_rate: int, days: int, day: int)
    requires
        projection(start, annual_rate, days) is Ok,
        1 <= day <= days,
    ensures
        projection(start, annual_rate, days)->Ok_0.len() == days,
        projection(start, annual_rate, days)->Ok_0[day - 1].day == day,
        projection(start, annual_rate, days)->Ok_0[day - 1] == projection_row(
            start,
            annual_rate,
            day,
        ),
        balance_after(start, annual_rate, day as nat) == balance_after(
            start,
            annual_rate,
            (day - 1) as nat,
        ) + daily_interest(balance_after(start, annual_rate, (day - 1) as nat), annual_rate),
{
}

/// At a rate that is not negative, interest has the sign of the balance it is
/// earned on.
pub proof fn lemma_interest_follows_balance(balance: int, annual_rate: int)
    requires
        annual_rate >= 0,
    ensures
        balance >= 0 ==> daily_interest(balance, annual_rate) >= 0,
        balance <= 0 ==> daily_interest(balance, annual_rate) <= 0,
        magnitude(balance + daily_interest(balance, annual_rate)) == magnitude(balance) + magnitude(
            daily_interest(balance, annual_rate),
        ),
{
    assert(balance >= 0 ==> balance * annual_rate >= 0) by (nonlinear_arith)
        requires
            annual_rate >= 0,
    ;
    assert(balance <= 0 ==> balance * annual_rate <= 0) by (nonlinear_arith)
        requires
            annual_rate >= 0,
    ;
}

/// At a rate that is not negative, a balance never shrinks in magnitude: a
/// projection that has left the representable range does not come back.
pub proof fn lemma_balance_never_shrinks(start: int, annual_rate: int, earlier: nat, later: nat)
    requires
        annual_rate >= 0,
        earlier <= later,
    ensures
        magnitude(balance_after(start, annual_rate, earlier)) <= magnitude(
            balance_after(start, annual_rate, later),
        ),
    decreases later,
{
    if earlier < later {
        let before = balance_after(start, annual_rate, (later - 1) as nat);
        lemma_balance_never_shrinks(start, annual_rate, earlier, (later - 1) as nat);
        lemma_interest_follows_balance(before, annual_rate);
    }
}

/// Projects `starting_balance` over `days` days at `annual_rate`, one row per
/// day.
///
/// Refused with `InvalidDayCount` where `days` is below one; otherwise with
/// `InvalidRate` where `annual_rate` is below zero; otherwise with
/// `InvalidAmount` where the balance leaves the representable range within
/// the days asked for.
pub fn project(starting_balance: Decimal, annual_rate: Decimal, days: i32) -> (outcome: Result<
    Vec<ProjectionRow>,
    BankError,
>)
    ensures
        match projection(starting_balance@, annual_rate@, days as int) {
            Ok(rows) => outcome is Ok && row_views(outcome->Ok_0@) == rows,
            Err(e) => outcome == Err::<Vec<ProjectionRow>, BankError>(e),
        },
{
    if days < 1 {
        return Err(BankError::InvalidDayCount);
    }
    if annual_rate.is_negative() {
        return Err(BankError::InvalidRate);
    }
    let year = Decimal::exactly(DAYS_PER_YEAR * SCALE);
    let mut balance = starting_balance;
    let mut rows: Vec<ProjectionRow> = Vec::new();
    let mut day: i32 = 0;
    while day < days
        invariant
            0 <= day <= days,
            annual_rate@ >= 0,
            year@ == DAYS_PER_YEAR * SCALE,
            balance@ == balance_after(starting_balance@, annual_rate@, day as nat),
            rows@.len() == day,
            forall|i: int|
                0 <= i < day ==> (#[trigger] rows@[i])@ == projection_row(
                    starting_balance@,
                    annual_rate@,
                    i + 1,
                ),
        decreases days - day,
    {
        proof {
            lemma_interest_follows_balance(balance@, annual_rate@);
            lemma_balance_never_shrinks(
                starting_balance@,
                annual_rate@,
                (day + 1) as nat,
                days as nat,
            );
            use_type_invariant(&balance);
        }
        let interest = match balance.mul_div(annual_rate, year) {
            Some(interest) => interest,
            None => {
                return Err(BankError::InvalidAmount);
            },
        };
        let next = match balance.checked_add(interest) {
            Some(next) => next,
            None => {
                return Err(BankError::InvalidAmount);
            },
        };
        day = day + 1;
        rows.push(
            ProjectionRow {
                day,
                interest: interest.round_to_cents(),
                running_balance: next.round_to_cents(),
            },
        );
        balance = next;
    }
    proof {
        use_type_invariant(&balance);
        assert(row_views(rows@) =~= projection(
            starting_balance@,
            annual_rate@,
            days as int,
        )->Ok_0);
    }
    Ok(rows)
}

/// Projects the balance of `account` at the standing annual rate over the
/// number of days that the line `days` spells, white space around it set
/// aside. The account is left as it is.
///
/// Refused with `InvalidDayCount` where `days` is no whole number or is below
/// one; otherwise with `InvalidAmount` where the balance leaves the
/// representable range within those days.
pub fn interest_amount(account: &Account, days: &str) -> (outcome: Result<
    Vec<ProjectionRow>,
    BankError,
>)
    ensures
        match projection_entered(account@.balance, days@) {
            Ok(rows) => outcome is Ok && row_views(outcome->Ok_0@) == rows,
            Err(e) => outcome == Err::<Vec<ProjectionRow>, BankError>(e),
        },
{
    match parse_day_count(trim(days)) {
        Some(count) => project(account.balance(), Decimal::exactly(ANNUAL_RATE), count),
        None => Err(BankError::InvalidDayCount),
    }
}

} // verus!
