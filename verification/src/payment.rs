//! The steps of settling a payment, in the order the ledger is read and
//! written: read the pending total and the credit (a failed read counts as
//! none), record the payment, clear the pending expenses, keep the credit,
//! and reply. A payment that cannot be recorded or expenses that cannot be
//! cleared stop the settlement; a credit that cannot be kept does not.
//! Clearing reads the pending expenses and writes only when there are any.
//! Every read and write of a settlement or a clearing names its own chat.
use vstd::prelude::*;
use crate::ledger::{self, settle};
use crate::replies;

verus! {

/// What a settlement knows so far: its chat, the payment, the pending
/// total and the credit it read (in satang), and how many expenses it
/// cleared.
#[derive(Clone, Copy, Debug)]
pub struct PaymentFlow {
    pub chat: i64,
    pub paid: i64,
    pub pending: i64,
    pub credit: i64,
    pub cleared: u64,
}

/// What happened since the last step of a settlement.
#[derive(Clone, Copy, Debug)]
pub enum PaymentEvent {
    /// The settlement begins.
    Started,
    /// The pending total was read (`None` when the read failed).
    PendingRead(Option<i64>),
    /// The credit was read (`None` when the read failed).
    CreditRead(Option<i64>),
    /// The payment was recorded, or recording it failed.
    PaymentWritten(bool),
    /// The pending expenses were cleared, this many of them (`None` when
    /// clearing failed).
    ExpensesCleared(Option<u64>),
    /// The credit was kept, or keeping it failed.
    CreditWritten(bool),
}

/// What a settlement does next; each read and write names its chat.
#[derive(Clone, Copy, Debug)]
pub enum PaymentAction {
    /// Read the pending total of this chat.
    ReadPending(i64),
    /// Read the credit of this chat.
    ReadCredit(i64),
    /// Record the payment in this chat.
    WritePayment(i64),
    /// Clear the pending expenses of this chat.
    ClearExpenses(i64),
    /// Keep this much credit (in satang) for this chat.
    WriteCredit(i64, i64),
    /// Send the settlement's reply.
    Reply,
    /// Stop with the error of the failed write.
    Fail,
}

/// The chat that an action of a settlement reads or writes, if any.
pub open spec fn payment_action_chat(a: PaymentAction) -> Option<i64> {
    match a {
        PaymentAction::ReadPending(c) => Some(c),
        PaymentAction::ReadCredit(c) => Some(c),
        PaymentAction::WritePayment(c) => Some(c),
        PaymentAction::ClearExpenses(c) => Some(c),
        PaymentAction::WriteCredit(c, _) => Some(c),
        PaymentAction::Reply => None,
        PaymentAction::Fail => None,
    }
}

/// A settlement in chat `chat` of a payment of `paid` satang that has not
/// begun.
pub open spec fn flow_start(chat: i64, paid: i64) -> PaymentFlow {
    PaymentFlow { chat, paid, pending: 0, credit: 0, cleared: 0 }
}

/// The credit kept after a settlement, as far as an `i64` holds it.
pub open spec fn credit_kept(s: PaymentFlow) -> i64 {
    let c = ledger::credit_after(s.pending as int, s.credit as int, s.paid as int);
    if c > i64::MAX {
        i64::MAX
    } else {
        c as i64
    }
}

/// The next state and action of a settlement after an event.
pub open spec fn payment_next(s: PaymentFlow, e: PaymentEvent) -> (PaymentFlow, PaymentAction) {
    match e {
        PaymentEvent::Started => (s, PaymentAction::ReadPending(s.chat)),
        PaymentEvent::PendingRead(r) => (
            PaymentFlow {
                pending: match r {
                    Some(v) => v,
                    None => 0,
                },
                ..s
            },
            PaymentAction::ReadCredit(s.chat),
        ),
        PaymentEvent::CreditRead(r) => (
            PaymentFlow {
                credit: match r {
                    Some(v) => v,
                    None => 0,
                },
                ..s
            },
            PaymentAction::WritePayment(s.chat),
        ),
        PaymentEvent::PaymentWritten(ok) => (s, if ok {
            PaymentAction::ClearExpenses(s.chat)
        } else {
            PaymentAction::Fail
        }),
        PaymentEvent::ExpensesCleared(r) => match r {
            Some(n) => {
                let t = PaymentFlow { cleared: n, ..s };
                (t, PaymentAction::WriteCredit(s.chat, credit_kept(t)))
            },
            None => (s, PaymentAction::Fail),
        },
        PaymentEvent::CreditWritten(_) => (s, PaymentAction::Reply),
    }
}

/// A settlement in chat `chat` of a payment of `paid` satang, before its
/// first step.
pub fn payment_start(chat: i64, paid: i64) -> (s: PaymentFlow)
    ensures
        s == flow_start(chat, paid),
{
    PaymentFlow { chat, paid, pending: 0, credit: 0, cleared: 0 }
}

/// One step of a settlement: the next state and what to do next.
pub fn payment_step(s: PaymentFlow, e: PaymentEvent) -> (r: (PaymentFlow, PaymentAction))
    ensures
        r == payment_next(s, e),
{
    match e {
        PaymentEvent::Started => (s, PaymentAction::ReadPending(s.chat)),
        PaymentEvent::PendingRead(r) => {
            let pending = match r {
                Some(v) => v,
                None => 0,
            };
            (PaymentFlow { pending, ..s }, PaymentAction::ReadCredit(s.chat))
        },
        PaymentEvent::CreditRead(r) => {
            let credit = match r {
                Some(v) => v,
                None => 0,
            };
            (PaymentFlow { credit, ..s }, PaymentAction::WritePayment(s.chat))
        },
        PaymentEvent::PaymentWritten(ok) => {
            if ok {
                (s, PaymentAction::ClearExpenses(s.chat))
            } else {
                (s, PaymentAction::Fail)
            }
        },
        PaymentEvent::ExpensesCleared(r) => match r {
            Some(n) => {
                let t = PaymentFlow { cleared: n, ..s };
                let c = settle(t.pending, t.credit, t.paid).new_credit;
                let kept = if c > i64::MAX as i128 {
                    i64::MAX
                } else {
                    c as i64
                };
                (t, PaymentAction::WriteCredit(s.chat, kept))
            },
            None => (s, PaymentAction::Fail),
        },
        PaymentEvent::CreditWritten(_) => (s, PaymentAction::Reply),
    }
}

/// A settlement reads the pending total, then the credit, records the
/// payment, clears the expenses, keeps the credit that the payment leaves,
/// and replies with what it read and cleared; whatever the reads give (a
/// failed read counts as none) and whether or not the credit could be kept.
/// A payment that is not recorded, or expenses that are not cleared, stop
/// it before anything else is written.
pub proof fn law_settlement_order(
    chat: i64,
    paid: i64,
    pending: Option<i64>,
    credit: Option<i64>,
    cleared: u64,
    credit_ok: bool,
)
    ensures
        ({
            let (s1, a1) = payment_next(flow_start(chat, paid), PaymentEvent::Started);
            let (s2, a2) = payment_next(s1, PaymentEvent::PendingRead(pending));
            let (s3, a3) = payment_next(s2, PaymentEvent::CreditRead(credit));
            let (s4, a4) = payment_next(s3, PaymentEvent::PaymentWritten(true));
            let (s5, a5) = payment_next(s4, PaymentEvent::ExpensesCleared(Some(cleared)));
            let (s6, a6) = payment_next(s5, PaymentEvent::CreditWritten(credit_ok));
            let p = match pending {
                Some(v) => v,
                None => 0,
            };
            let c = match credit {
                Some(v) => v,
                None => 0,
            };
            &&& a1 == PaymentAction::ReadPending(chat)
            &&& a2 == PaymentAction::ReadCredit(chat)
            &&& a3 == PaymentAction::WritePayment(chat)
            &&& payment_next(s3, PaymentEvent::PaymentWritten(false)).1 == PaymentAction::Fail
            &&& a4 == PaymentAction::ClearExpenses(chat)
            &&& payment_next(s4, PaymentEvent::ExpensesCleared(None)).1 == PaymentAction::Fail
            &&& a5 == PaymentAction::WriteCredit(chat, credit_kept(s5))
            &&& a6 == PaymentAction::Reply
            &&& s6 == PaymentFlow { chat, paid, pending: p, credit: c, cleared }
        }),
{
}

/// A settlement touches only its own chat: whatever happens, it stays in
/// its chat, and every read and write it asks for names that chat.
pub proof fn law_settlement_stays_in_its_chat(s: PaymentFlow, e: PaymentEvent)
    ensures
        payment_next(s, e).0.chat == s.chat,
        payment_action_chat(payment_next(s, e).1) is Some ==> payment_action_chat(
            payment_next(s, e).1,
        ) == Some(s.chat),
{
}

/// The credit that a settlement keeps is never negative; it is more than
/// nothing only when the credit and the payment exceed the pending total by
/// more than a satang (an overpayment), and then it is that excess as far
/// as an `i64` holds it; a larger payment never keeps less credit. The last
/// line of the reply says how it came out: overpaid, short, or exact.
pub proof fn law_settlement_credit(s: PaymentFlow, more: i64)
    requires
        more >= s.paid,
    ensures
        credit_kept(s) >= 0,
        credit_kept(s) > 0 <==> ledger::balance_after(
            s.pending as int,
            s.credit as int,
            s.paid as int,
        ) > 1,
        ledger::balance_after(s.pending as int, s.credit as int, s.paid as int) > 1
            ==> credit_kept(s) == if ledger::balance_after(
            s.pending as int,
            s.credit as int,
            s.paid as int,
        ) > i64::MAX {
            i64::MAX as int
        } else {
            ledger::balance_after(s.pending as int, s.credit as int, s.paid as int)
        },
        credit_kept(s) <= credit_kept(PaymentFlow { paid: more, ..s }),
        replies::settlement_lines(
            s.paid as int,
            s.cleared as nat,
            s.pending as int,
            s.credit as int,
        ).last() == replies::outcome_line(
            ledger::balance_after(s.pending as int, s.credit as int, s.paid as int),
        ),
{
}

/// What a clearing knows so far: its chat and how many pending expenses it
/// found.
#[derive(Clone, Copy, Debug)]
pub struct ClearFlow {
    pub chat: i64,
    pub pending: u64,
}

/// What happened since the last step of a clearing.
#[derive(Clone, Copy, Debug)]
pub enum ClearEvent {
    /// The clearing begins.
    Started,
    /// The chat's pending expenses were read: this many.
    PendingRead(u64),
    /// The pending expenses were marked cleared.
    Cleared,
}

/// What a clearing does next.
#[derive(Clone, Copy, Debug)]
pub enum ClearAction {
    /// Read the pending expenses of this chat.
    ReadPending(i64),
    /// Mark the pending expenses of this chat cleared.
    MarkCleared(i64),
    /// The clearing is over; this many expenses were cleared.
    Done(u64),
}

/// A clearing in chat `chat` that has not begun.
pub open spec fn clear_start(chat: i64) -> ClearFlow {
    ClearFlow { chat, pending: 0 }
}

/// The next state and action of a clearing after an event: nothing is
/// written when no expense is pending.
pub open spec fn clear_next(s: ClearFlow, e: ClearEvent) -> (ClearFlow, ClearAction) {
    match e {
        ClearEvent::Started => (s, ClearAction::ReadPending(s.chat)),
        ClearEvent::PendingRead(n) => if n == 0 {
            (ClearFlow { pending: 0, ..s }, ClearAction::Done(0))
        } else {
            (ClearFlow { pending: n, ..s }, ClearAction::MarkCleared(s.chat))
        },
        ClearEvent::Cleared => (s, ClearAction::Done(s.pending)),
    }
}

/// A clearing in chat `chat`, before its first step.
pub fn clearing_start(chat: i64) -> (s: ClearFlow)
    ensures
        s == clear_start(chat),
{
    ClearFlow { chat, pending: 0 }
}

/// One step of a clearing: the next state and what to do next.
pub fn clear_step(s: ClearFlow, e: ClearEvent) -> (r: (ClearFlow, ClearAction))
    ensures
        r == clear_next(s, e),
{
    match e {
        ClearEvent::Started => (s, ClearAction::ReadPending(s.chat)),
        ClearEvent::PendingRead(n) => {
            if n == 0 {
                (ClearFlow { pending: 0, ..s }, ClearAction::Done(0))
            } else {
                (ClearFlow { pending: n, ..s }, ClearAction::MarkCleared(s.chat))
            }
        },
        ClearEvent::Cleared => (s, ClearAction::Done(s.pending)),
    }
}

/// A clearing reads its chat's pending expenses; when there are none it
/// writes nothing and clears none, otherwise it marks that chat's expenses
/// cleared and reports how many there were.
pub proof fn law_clearing(chat: i64, n: u64)
    ensures
        ({
            let (s1, a1) = clear_next(clear_start(chat), ClearEvent::Started);
            let (s2, a2) = clear_next(s1, ClearEvent::PendingRead(n));
            let (s3, a3) = clear_next(s2, ClearEvent::Cleared);
            &&& a1 == ClearAction::ReadPending(chat)
            &&& n == 0 ==> a2 == ClearAction::Done(0)
            &&& n > 0 ==> a2 == ClearAction::MarkCleared(chat) && a3 == ClearAction::Done(n)
        }),
{
}

} // verus!
