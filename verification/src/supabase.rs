//! The requests to Supabase's REST API that hold a chat's ledger: every
//! request that reads or changes expenses or credit is filtered by the
//! chat's id, so each chat keeps a ledger of its own.
use vstd::prelude::*;
use vstd::string::*;
use crate::clock::{self, today_start_utc};
use crate::bot;
use crate::text::{self, push_signed};

verus! {

pub const EXPENSES: &'static str = "/rest/v1/expenses";

pub const PAYMENTS: &'static str = "/rest/v1/payments";

pub const CREDIT_BALANCE: &'static str = "/rest/v1/credit_balance";

pub const PENDING_SUMMARY_FOR_CHAT: &'static str = "/rest/v1/pending_summary?chat_id=eq.";

pub const EXPENSES_FOR_CHAT: &'static str = "/rest/v1/expenses?chat_id=eq.";

pub const NOT_CLEARED: &'static str = "&is_cleared=eq.false";

pub const OLDEST_FIRST: &'static str = "&order=created_at.asc";

pub const CREATED_SINCE: &'static str = "&created_at=gte.";

pub const EXPENSE_WITH_ID: &'static str = "/rest/v1/expenses?id=eq.";

pub const AND_CHAT: &'static str = "&chat_id=eq.";

pub const CREDIT_FOR_CHAT: &'static str = "/rest/v1/credit_balance?chat_id=eq.";

pub const BALANCE_ONLY: &'static str = "&select=balance";

pub const BEARER: &'static str = "Bearer ";

/// `Prefer` for requests that need no rows back.
pub const RETURN_MINIMAL: &'static str = "return=minimal";

/// `Prefer` for requests that read rows.
pub const RETURN_REPRESENTATION: &'static str = "return=representation";

/// `Prefer` for the credit upsert: a second row for a chat updates the
/// first.
pub const MERGE_DUPLICATES: &'static str = "resolution=merge-duplicates,return=minimal";

/// `base` followed by `path`.
pub fn endpoint(base: &str, path: &str) -> (u: String)
    ensures
        u@ == base@ + path@,
{
    let mut u = base.to_owned();
    u.append(path);
    u
}

/// The URL for inserting an expense.
pub fn expenses_url(base: &str) -> (u: String)
    ensures
        u@ == base@ + EXPENSES@,
{
    endpoint(base, EXPENSES)
}

/// The URL for inserting a payment.
pub fn payments_url(base: &str) -> (u: String)
    ensures
        u@ == base@ + PAYMENTS@,
{
    endpoint(base, PAYMENTS)
}

/// The URL for upserting a chat's credit.
pub fn credit_upsert_url(base: &str) -> (u: String)
    ensures
        u@ == base@ + CREDIT_BALANCE@,
{
    endpoint(base, CREDIT_BALANCE)
}

/// The URL of a chat's pending total.
pub open spec fn pending_summary(base: Seq<char>, chat: i64) -> Seq<char> {
    base + PENDING_SUMMARY_FOR_CHAT@ + text::signed_decimal(chat as int)
}

/// The URL of a chat's pending total.
pub fn pending_summary_url(base: &str, chat: i64) -> (u: String)
    ensures
        u@ == pending_summary(base@, chat),
{
    let mut u = endpoint(base, PENDING_SUMMARY_FOR_CHAT);
    push_signed(&mut u, chat as i128);
    u
}

/// The URL of a chat's pending expenses, oldest first.
pub open spec fn pending_expenses(base: Seq<char>, chat: i64) -> Seq<char> {
    base + EXPENSES_FOR_CHAT@ + text::signed_decimal(chat as int) + NOT_CLEARED@ + OLDEST_FIRST@
}

/// The URL of a chat's pending expenses, oldest first.
pub fn pending_expenses_url(base: &str, chat: i64) -> (u: String)
    ensures
        u@ == pending_expenses(base@, chat),
{
    let mut u = endpoint(base, EXPENSES_FOR_CHAT);
    push_signed(&mut u, chat as i128);
    u.append(NOT_CLEARED);
    u.append(OLDEST_FIRST);
    u
}

/// The URL of a chat's pending expenses recorded since the start of today
/// in Bangkok, oldest first.
pub open spec fn today_expenses(base: Seq<char>, chat: i64, now: int) -> Seq<char> {
    base + EXPENSES_FOR_CHAT@ + text::signed_decimal(chat as int) + NOT_CLEARED@ + CREATED_SINCE@
        + clock::today_filter(now) + OLDEST_FIRST@
}

/// The URL of a chat's pending expenses recorded today, at time `now`.
pub fn today_expenses_url(base: &str, chat: i64, now: i64) -> (u: String)
    ensures
        u@ == today_expenses(base@, chat, now as int),
{
    let mut u = endpoint(base, EXPENSES_FOR_CHAT);
    push_signed(&mut u, chat as i128);
    u.append(NOT_CLEARED);
    u.append(CREATED_SINCE);
    let since = today_start_utc(now);
    u.append(since.as_str());
    u.append(OLDEST_FIRST);
    u
}

/// The URL that marks all of a chat's pending expenses cleared.
pub open spec fn clear_expenses(base: Seq<char>, chat: i64) -> Seq<char> {
    base + EXPENSES_FOR_CHAT@ + text::signed_decimal(chat as int) + NOT_CLEARED@
}

/// The URL that marks all of a chat's pending expenses cleared.
pub fn clear_expenses_url(base: &str, chat: i64) -> (u: String)
    ensures
        u@ == clear_expenses(base@, chat),
{
    let mut u = endpoint(base, EXPENSES_FOR_CHAT);
    push_signed(&mut u, chat as i128);
    u.append(NOT_CLEARED);
    u
}

/// The URL that deletes the chat's pending expense with id `id`.
pub open spec fn cancel_expense(base: Seq<char>, chat: i64, id: i64) -> Seq<char> {
    base + EXPENSE_WITH_ID@ + text::signed_decimal(id as int) + AND_CHAT@ + text::signed_decimal(
        chat as int,
    ) + NOT_CLEARED@
}

/// The URL that deletes the chat's pending expense with id `id`.
pub fn cancel_expense_url(base: &str, chat: i64, id: i64) -> (u: String)
    ensures
        u@ == cancel_expense(base@, chat, id),
{
    let mut u = endpoint(base, EXPENSE_WITH_ID);
    push_signed(&mut u, id as i128);
    u.append(AND_CHAT);
    push_signed(&mut u, chat as i128);
    u.append(NOT_CLEARED);
    u
}

/// The URL of a chat's credit balance.
pub open spec fn credit_balance(base: Seq<char>, chat: i64) -> Seq<char> {
    base + CREDIT_FOR_CHAT@ + text::signed_decimal(chat as int) + BALANCE_ONLY@
}

/// The URL of a chat's credit balance.
pub fn credit_balance_url(base: &str, chat: i64) -> (u: String)
    ensures
        u@ == credit_balance(base@, chat),
{
    let mut u = endpoint(base, CREDIT_FOR_CHAT);
    push_signed(&mut u, chat as i128);
    u.append(BALANCE_ONLY);
    u
}

/// The `Authorization` value for the API key.
pub fn bearer(key: &str) -> (v: String)
    ensures
        v@ == BEARER@ + key@,
{
    endpoint(BEARER, key)
}

/// The pending total in the rows of the pending summary: the first row's
/// total, or zero when there is no row or it has no total.
pub fn pending_total_of(totals: &Vec<Option<i64>>) -> (t: i64)
    ensures
        t == if totals@.len() > 0 && totals@[0] is Some {
            totals@[0]->0
        } else {
            0
        },
{
    if totals.len() > 0 {
        match totals[0] {
            Some(t) => t,
            None => 0,
        }
    } else {
        0
    }
}

/// The credit in the rows of the credit balance: the first row's balance,
/// or zero when the chat has never had credit.
pub fn credit_of(balances: &Vec<i64>) -> (c: i64)
    ensures
        c == if balances@.len() > 0 {
            balances@[0]
        } else {
            0
        },
{
    if balances.len() > 0 {
        balances[0]
    } else {
        0
    }
}


/// The row written for a new expense: what was bought, for how much (in
/// satang), by whom, and the chat and message it came from.
pub struct ExpenseRecord {
    pub item: String,
    pub amount: i64,
    pub paid_by: String,
    pub chat_id: i64,
    pub message_id: i64,
}

/// The row for an expense recorded in chat `chat_id` by message
/// `message_id`.
pub fn expense_record(chat_id: i64, message_id: i64, item: &str, amount: i64, paid_by: &str) -> (r:
    ExpenseRecord)
    ensures
        r.chat_id == chat_id,
        r.message_id == message_id,
        r.item@ == item@,
        r.amount == amount,
        r.paid_by@ == paid_by@,
{
    ExpenseRecord {
        item: item.to_owned(),
        amount,
        paid_by: paid_by.to_owned(),
        chat_id,
        message_id,
    }
}

/// The row written for a payment: how much was paid (in satang), how (a
/// slip or `/paid`), in which chat, from which message, and a note.
pub struct PaymentRecord {
    pub amount: i64,
    pub method: String,
    pub chat_id: i64,
    pub message_id: Option<i64>,
    pub note: Option<String>,
}

/// The view of an optional string.
pub open spec fn opt_text(o: Option<String>) -> Option<Seq<char>> {
    match o {
        Some(s) => Some(s@),
        None => None,
    }
}

/// The row for a payment made in chat `chat_id`.
pub fn payment_record(
    chat_id: i64,
    message_id: Option<i64>,
    amount: i64,
    method: &str,
    note: Option<String>,
) -> (r: PaymentRecord)
    ensures
        r.chat_id == chat_id,
        r.message_id == message_id,
        r.amount == amount,
        r.method@ == method@,
        opt_text(r.note) == opt_text(note),
{
    PaymentRecord { amount, method: method.to_owned(), chat_id, message_id, note }
}

/// The row that sets a chat's credit (in satang).
pub struct CreditRecord {
    pub chat_id: i64,
    pub balance: i64,
}

/// The row that sets the credit of chat `chat_id` to `balance`.
pub fn credit_record(chat_id: i64, balance: i64) -> (r: CreditRecord)
    ensures
        r.chat_id == chat_id,
        r.balance == balance,
{
    CreditRecord { chat_id, balance }
}


/// Each chat keeps a ledger of its own: the requests for the pending
/// total, the pending expenses, today's expenses, clearing, cancelling and
/// the credit of one chat are never those of another chat.
pub proof fn law_chats_kept_apart(base: Seq<char>, a: i64, b: i64, id: i64, now: int)
    requires
        a != b,
    ensures
        pending_summary(base, a) != pending_summary(base, b),
        pending_expenses(base, a) != pending_expenses(base, b),
        today_expenses(base, a, now) != today_expenses(base, b, now),
        clear_expenses(base, a) != clear_expenses(base, b),
        cancel_expense(base, a, id) != cancel_expense(base, b, id),
        credit_balance(base, a) != credit_balance(base, b),
{
    let da = text::signed_decimal(a as int);
    let db = text::signed_decimal(b as int);
    if da == db {
        bot::lemma_chat_ids_distinct(a, b);
    }
    lemma_middle_differs(base + PENDING_SUMMARY_FOR_CHAT@, da, db, Seq::empty());
    lemma_middle_differs(base + EXPENSES_FOR_CHAT@, da, db, NOT_CLEARED@ + OLDEST_FIRST@);
    lemma_middle_differs(
        base + EXPENSES_FOR_CHAT@,
        da,
        db,
        NOT_CLEARED@ + CREATED_SINCE@ + clock::today_filter(now) + OLDEST_FIRST@,
    );
    lemma_middle_differs(base + EXPENSES_FOR_CHAT@, da, db, NOT_CLEARED@);
    lemma_middle_differs(
        base + EXPENSE_WITH_ID@ + text::signed_decimal(id as int) + AND_CHAT@,
        da,
        db,
        NOT_CLEARED@,
    );
    lemma_middle_differs(base + CREDIT_FOR_CHAT@, da, db, BALANCE_ONLY@);
    assert(pending_summary(base, a) =~= base + PENDING_SUMMARY_FOR_CHAT@ + da + Seq::empty());
    assert(pending_summary(base, b) =~= base + PENDING_SUMMARY_FOR_CHAT@ + db + Seq::empty());
    assert(pending_expenses(base, a) =~= base + EXPENSES_FOR_CHAT@ + da + (NOT_CLEARED@
        + OLDEST_FIRST@));
    assert(pending_expenses(base, b) =~= base + EXPENSES_FOR_CHAT@ + db + (NOT_CLEARED@
        + OLDEST_FIRST@));
    assert(today_expenses(base, a, now) =~= base + EXPENSES_FOR_CHAT@ + da + (NOT_CLEARED@
        + CREATED_SINCE@ + clock::today_filter(now) + OLDEST_FIRST@));
    assert(today_expenses(base, b, now) =~= base + EXPENSES_FOR_CHAT@ + db + (NOT_CLEARED@
        + CREATED_SINCE@ + clock::today_filter(now) + OLDEST_FIRST@));
    assert(cancel_expense(base, a, id) =~= base + EXPENSE_WITH_ID@ + text::signed_decimal(
        id as int,
    ) + AND_CHAT@ + da + NOT_CLEARED@);
    assert(cancel_expense(base, b, id) =~= base + EXPENSE_WITH_ID@ + text::signed_decimal(
        id as int,
    ) + AND_CHAT@ + db + NOT_CLEARED@);
}

/// Two texts with the same beginning and the same end but different
/// middles are different.
proof fn lemma_middle_differs(pre: Seq<char>, x: Seq<char>, y: Seq<char>, post: Seq<char>)
    requires
        x != y,
    ensures
        pre + x + post != pre + y + post,
{
    if pre + x + post == pre + y + post {
        if x.len() == y.len() {
            assert forall|i: int| 0 <= i < x.len() implies x[i] == y[i] by {
                assert((pre + x + post)[pre.len() + i] == x[i]);
                assert((pre + y + post)[pre.len() + i] == y[i]);
            }
            assert(x =~= y);
        } else {
            assert((pre + x + post).len() != (pre + y + post).len());
        }
    }
}

} // verus!
