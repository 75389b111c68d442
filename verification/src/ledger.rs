//! The credit rules of a chat's ledger.
//!
//! Expenses accumulate as pending until a payment settles them. A payment
//! clears every pending expense; what it pays beyond them, together with the
//! credit already held, is kept as credit, and credit is taken off what new
//! expenses leave due. Differences of at most one satang count as none.
use vstd::prelude::*;

verus! {

/// Whether an amount counts as money at all: more than one satang.
pub open spec fn beyond_tolerance(v: int) -> bool {
    v > 1
}

/// What is left to transfer for `pending` satang of expenses when `credit`
/// satang are held: the pending amount less the credit, never below zero.
pub open spec fn net_due(pending: int, credit: int) -> int {
    if pending - credit > 0 {
        pending - credit
    } else {
        0
    }
}

/// The balance after paying `paid` against `pending` with `credit` held:
/// positive when the payment (with the credit) was more than enough,
/// negative when it fell short.
pub open spec fn balance_after(pending: int, credit: int, paid: int) -> int {
    credit + paid - pending
}

/// The credit that a settlement leaves: the balance when it counts as money,
/// otherwise none.
pub open spec fn credit_after(pending: int, credit: int, paid: int) -> int {
    if beyond_tolerance(balance_after(pending, credit, paid)) {
        balance_after(pending, credit, paid)
    } else {
        0
    }
}

/// The outcome of settling a chat's pending expenses with a payment.
pub struct Settlement {
    /// Credit and payment less the pending expenses.
    pub balance: i128,
    /// The credit that the chat holds afterwards.
    pub new_credit: i128,
}

/// What is left to transfer for `pending` satang when `credit` satang are
/// held.
pub fn due(pending: i128, credit: i128) -> (d: i128)
    requires
        i128::MIN <= pending - credit <= i128::MAX,
    ensures
        d == net_due(pending as int, credit as int),
{
    let diff = pending - credit;
    if diff > 0 {
        diff
    } else {
        0
    }
}

/// Settles `pending_total` satang of expenses with a payment of `paid`
/// satang while `credit` satang are held.
pub fn settle(pending_total: i64, credit: i64, paid: i64) -> (s: Settlement)
    ensures
        s.balance == balance_after(pending_total as int, credit as int, paid as int),
        s.new_credit == credit_after(pending_total as int, credit as int, paid as int),
{
    let balance = credit as i128 + paid as i128 - pending_total as i128;
    let new_credit = if balance > 1 {
        balance
    } else {
        0
    };
    Settlement { balance, new_credit }
}

/// A settlement never leaves a negative credit.
pub proof fn law_credit_never_negative(pending: int, credit: int, paid: int)
    ensures
        credit_after(pending, credit, paid) >= 0,
{
}

/// Paying exactly what is due never leaves the chat owing: the balance is
/// what the credit exceeded the pending expenses by, or zero; so when the
/// credit did not exceed them, nothing is owed and no credit is left.
pub proof fn law_paying_the_due_settles(pending: int, credit: int)
    ensures
        balance_after(pending, credit, net_due(pending, credit)) == if credit > pending {
            credit - pending
        } else {
            0
        },
        credit <= pending ==> credit_after(pending, credit, net_due(pending, credit)) == 0,
{
}

/// Overpaying keeps the excess as credit: whatever the credit and the
/// payment exceed the pending expenses by, beyond one satang, is the new
/// credit.
pub proof fn law_overpayment_becomes_credit(pending: int, credit: int, paid: int)
    requires
        credit + paid > pending + 1,
    ensures
        credit_after(pending, credit, paid) == credit + paid - pending,
{
}

/// Credit is used up by new expenses first: with `credit` held, new
/// expenses of `spent` leave nothing due while they stay within the credit,
/// and beyond it exactly the excess is due.
pub proof fn law_credit_consumed_first(spent: int, credit: int)
    requires
        credit >= 0,
    ensures
        spent <= credit ==> net_due(spent, credit) == 0,
        spent > credit ==> net_due(spent, credit) == spent - credit,
        net_due(spent, credit) <= if spent > 0 {
            spent
        } else {
            0
        },
{
}

/// Two payments in a row, with the credit of the first carried into the
/// second, leave the same credit as one payment of their sum, as long as
/// the first left a credit that counts.
pub proof fn law_settlements_compose(p1: int, credit: int, paid1: int, p2: int, paid2: int)
    requires
        beyond_tolerance(balance_after(p1, credit, paid1)),
    ensures
        credit_after(p2, credit_after(p1, credit, paid1), paid2) == credit_after(
            p1 + p2,
            credit,
            paid1 + paid2,
        ),
{
}

} // verus!
