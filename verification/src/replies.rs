//! The bot's replies to recording an expense, a payment, a slip, a
//! cancellation and a clearing.
use vstd::prelude::*;
use vstd::string::*;
use crate::ledger::{self, due, settle};
use crate::money::{self, push_baht, push_baht_whole};
use crate::text::{self, join, push_decimal, push_signed};

verus! {

pub const RECORDED: &'static str = "✅ บันทึกแล้ว: *";

pub const AFTER_ITEM: &'static str = "* ";

pub const BAHT_NEWLINE: &'static str = " บาท\n";

pub const CREDIT_COVERS: &'static str = "🏦 หัก credit แล้ว — ยังไม่ต้องโอน (credit เหลือ *";

pub const BAHT_CLOSE_PAREN: &'static str = " บาท*)";

pub const CREDIT_TAKEN: &'static str = "🏦 หัก credit *";

pub const CREDIT_TAKEN_THEN_DUE: &'static str = " บาท* แล้ว\n💰 ยอดที่ต้องโอน: *";

pub const BAHT_CLOSE: &'static str = " บาท*";

pub const STILL_DUE: &'static str = "💰 ยอดค้าง: *";

pub const PAYMENT_RECORDED: &'static str = "✅ *บันทึกการโอน ";

pub const CLEARED_PREFIX: &'static str = "เคลียร์ ";

pub const ITEMS: &'static str = " รายการ";

pub const PENDING_BEFORE: &'static str = "ยอดค้างก่อนหน้า: *";

pub const OLD_CREDIT: &'static str = "credit เดิม: *";

pub const OVERPAID: &'static str = "โอนเกิน *";

pub const KEPT_AS_CREDIT: &'static str = " บาท* — เก็บเป็น credit หักรายการหน้าอัตโนมัติ";

pub const SHORT_BY: &'static str = "⚠️ ยังขาดอยู่ *";

pub const EXACT: &'static str = "ยอดตรงพอดี";

pub const SLIP_READ: &'static str = "🎉 *อ่านสลิปสำเร็จ!*\n💸 ยอดโอน: *";

pub const SLIP_NOTE: &'static str = " บาท*\n📝 ";

pub const NEWLINE: &'static str = "\n";

pub const SLIP_UNREADABLE: &'static str = "📎 ได้รับสลิปแล้ว แต่อ่านยอดไม่ได้\n_";

pub const NOTE_THEN_DUE: &'static str = "_\n\n💰 ยอดค้าง: *";

pub const TYPE_PAID_YOURSELF: &'static str = "\nกรุณาพิมพ์ `/paid <จำนวน>` เพื่อบันทึกเอง";

pub const SLIP_FAILED: &'static str = "❌ อ่านสลิปไม่สำเร็จ\n💰 ยอดค้าง: *";

pub const TYPE_PAID_INSTEAD: &'static str = "\nกรุณาพิมพ์ `/paid <จำนวน>` แทน";

pub const AFTER_CREDIT: &'static str = " _(หลังหัก credit ";

pub const BAHT_SIGN_CLOSE: &'static str = "฿)_";

pub const CANCELLED: &'static str = "ยกเลิกรายการ #";

pub const CANCELLED_THEN_LEFT: &'static str = " แล้ว\nยอดค้างเหลือ: *";

pub const NOT_FOUND: &'static str = "❌ ไม่พบรายการ #";

pub const NOT_FOUND_END: &'static str = " หรือถูกเคลียร์ไปแล้ว";

pub const NOTHING_TO_CLEAR: &'static str = "ไม่มีรายการค้างชำระอยู่แล้ว";

pub const CLEARED: &'static str = "✅ *เคลียร์แล้ว!*\n";

pub const ITEMS_TOTAL: &'static str = " รายการ รวม *";

pub const AMOUNT_NOT_POSITIVE: &'static str = "❌ จำนวนเงินต้องมากกว่า 0";

pub const TRUNCATED_SLIP: &'static str = "อ่านยอดไม่ได้ (response ถูกตัด — ลองใหม่อีกครั้ง)";

pub const HELP: &'static str = "*KaoBot — ผู้ช่วยบันทึกค่าใช้จ่าย*\n\n*วิธีบันทึกรายจ่าย:*\nพิมพ์ชื่อรายการ + เว้นวรรค + จำนวนเงิน\nตัวอย่าง: `ข้าว 60` หรือ `กาแฟ 65.50`\n\n*คำสั่งที่ใช้ได้:*\n/summary — ยอดรวมค้างชำระ\n/today — รายการวันนี้\n/history — 10 รายการล่าสุด\n/paid 500 — บันทึกการโอนเงิน 500 บาท\n/cancel 42 — ยกเลิกรายการ id 42\n/clear — เคลียร์ทุกรายการ\n\n*ส่งสลิป:*\nส่งรูปสลิปมาใน chat นี้ — bot จะอ่านยอดและเคลียร์ให้อัตโนมัติ";

/// The reply to a recorded expense, given the chat's pending total (the new
/// expense included) and its credit. Three cases: the credit covers the
/// pending total, so nothing needs transferring and the remaining credit is
/// shown; there is some credit, which is shown with what is left to
/// transfer; there is none, and the pending total is shown.
pub open spec fn recorded_reply(item: Seq<char>, amount: int, pending: int, credit: int) -> Seq<
    char,
> {
    let head = RECORDED@ + item + AFTER_ITEM@ + money::baht_whole(amount) + BAHT_NEWLINE@;
    let d = ledger::net_due(pending, credit);
    if ledger::beyond_tolerance(credit) && d < 1 {
        head + CREDIT_COVERS@ + money::baht_whole(credit - pending) + BAHT_CLOSE_PAREN@
    } else if ledger::beyond_tolerance(credit) {
        head + CREDIT_TAKEN@ + money::baht_whole(credit) + CREDIT_TAKEN_THEN_DUE@
            + money::baht_whole(d) + BAHT_CLOSE@
    } else {
        head + STILL_DUE@ + money::baht_whole(pending) + BAHT_CLOSE@
    }
}

/// The reply to a recorded expense.
pub fn expense_recorded_reply(item: &str, amount: i64, pending_total: i64, credit: i64) -> (r:
    String)
    ensures
        r@ == recorded_reply(item@, amount as int, pending_total as int, credit as int),
{
    let mut out = String::new();
    out.append(RECORDED);
    out.append(item);
    out.append(AFTER_ITEM);
    push_baht_whole(&mut out, amount as i128);
    out.append(BAHT_NEWLINE);
    let d = due(pending_total as i128, credit as i128);
    if credit > 1 && d < 1 {
        out.append(CREDIT_COVERS);
        push_baht_whole(&mut out, credit as i128 - pending_total as i128);
        out.append(BAHT_CLOSE_PAREN);
    } else if credit > 1 {
        out.append(CREDIT_TAKEN);
        push_baht_whole(&mut out, credit as i128);
        out.append(CREDIT_TAKEN_THEN_DUE);
        push_baht_whole(&mut out, d);
        out.append(BAHT_CLOSE);
    } else {
        out.append(STILL_DUE);
        push_baht_whole(&mut out, pending_total as i128);
        out.append(BAHT_CLOSE);
    }
    assert(out@ =~= recorded_reply(item@, amount as int, pending_total as int, credit as int));
    out
}

/// The line that says how a settlement came out: an overpayment kept as
/// credit, a shortfall, or an exact payment.
pub open spec fn outcome_line(balance: int) -> Seq<char> {
    if ledger::beyond_tolerance(balance) {
        OVERPAID@ + money::baht_2dp(balance) + KEPT_AS_CREDIT@
    } else if balance < -1 {
        SHORT_BY@ + money::baht_2dp(-balance) + BAHT_CLOSE@
    } else {
        EXACT@
    }
}

/// The lines of the reply to a payment: the amount paid, how many expenses
/// were cleared, the pending total before the payment, the credit held
/// before it (when it counts), and the outcome.
pub open spec fn settlement_lines(paid: int, cleared: nat, pending: int, credit: int) -> Seq<
    Seq<char>,
> {
    let first = seq![
        PAYMENT_RECORDED@ + money::baht_2dp(paid) + BAHT_CLOSE@,
        CLEARED_PREFIX@ + text::decimal(cleared) + ITEMS@,
        PENDING_BEFORE@ + money::baht_2dp(pending) + BAHT_CLOSE@,
    ];
    let with_credit = if ledger::beyond_tolerance(credit) {
        first.push(OLD_CREDIT@ + money::baht_2dp(credit) + BAHT_CLOSE@)
    } else {
        first
    };
    with_credit.push(outcome_line(ledger::balance_after(pending, credit, paid)))
}

/// The reply to a payment of `paid` that cleared `cleared` expenses worth
/// `pending_total` while `credit` was held; its lines joined by newlines.
pub fn settlement_reply(paid: i64, cleared: u64, pending_total: i64, credit: i64) -> (r: String)
    ensures
        r@ == text::join_lines(
            settlement_lines(paid as int, cleared as nat, pending_total as int, credit as int),
        ),
{
    let s = settle(pending_total, credit, paid);
    let mut lines: Vec<String> = Vec::new();
    let mut l1 = String::new();
    l1.append(PAYMENT_RECORDED);
    push_baht(&mut l1, paid as i128);
    l1.append(BAHT_CLOSE);
    lines.push(l1);
    let mut l2 = String::new();
    l2.append(CLEARED_PREFIX);
    push_decimal(&mut l2, cleared as u128);
    l2.append(ITEMS);
    lines.push(l2);
    let mut l3 = String::new();
    l3.append(PENDING_BEFORE);
    push_baht(&mut l3, pending_total as i128);
    l3.append(BAHT_CLOSE);
    lines.push(l3);
    if credit > 1 {
        let mut l4 = String::new();
        l4.append(OLD_CREDIT);
        push_baht(&mut l4, credit as i128);
        l4.append(BAHT_CLOSE);
        lines.push(l4);
    }
    let mut last = String::new();
    if s.balance > 1 {
        last.append(OVERPAID);
        push_baht(&mut last, s.balance);
        last.append(KEPT_AS_CREDIT);
    } else if s.balance < -1 {
        last.append(SHORT_BY);
        push_baht(&mut last, -s.balance);
        last.append(BAHT_CLOSE);
    } else {
        last.append(EXACT);
    }
    lines.push(last);
    assert(text::views(lines@) =~= settlement_lines(
        paid as int,
        cleared as nat,
        pending_total as int,
        credit as int,
    ));
    join(&lines)
}

/// The reply to a slip that was read: the amount, the note read with it,
/// and the reply to the payment that it settled.
pub open spec fn slip_read_reply(amount: int, note: Seq<char>, settled: Seq<char>) -> Seq<char> {
    SLIP_READ@ + money::baht_whole(amount) + SLIP_NOTE@ + note + NEWLINE@ + settled
}

/// The reply to a slip that was read and settled.
pub fn slip_settled_reply(amount: i64, note: &str, settled: &str) -> (r: String)
    ensures
        r@ == slip_read_reply(amount as int, note@, settled@),
{
    let mut out = String::new();
    out.append(SLIP_READ);
    push_baht_whole(&mut out, amount as i128);
    out.append(SLIP_NOTE);
    out.append(note);
    out.append(NEWLINE);
    out.append(settled);
    assert(out@ =~= slip_read_reply(amount as int, note@, settled@));
    out
}

/// Mentions the credit that was taken off the amount due, when it counts.
pub open spec fn credit_note(credit: int) -> Seq<char> {
    if ledger::beyond_tolerance(credit) {
        AFTER_CREDIT@ + money::baht_whole(credit) + BAHT_SIGN_CLOSE@
    } else {
        Seq::empty()
    }
}

fn push_credit_note(out: &mut String, credit: i64)
    ensures
        final(out)@ == old(out)@ + credit_note(credit as int),
{
    if credit > 1 {
        out.append(AFTER_CREDIT);
        push_baht_whole(out, credit as i128);
        out.append(BAHT_SIGN_CLOSE);
        assert(out@ =~= old(out)@ + credit_note(credit as int));
    } else {
        assert(old(out)@ + credit_note(credit as int) =~= old(out)@);
    }
}

/// The reply to a slip whose amount could not be read: the note, what is
/// due after the credit, and how to record the payment by hand.
pub open spec fn unreadable_reply(note: Seq<char>, pending: int, credit: int) -> Seq<char> {
    SLIP_UNREADABLE@ + note + NOTE_THEN_DUE@ + money::baht_whole(ledger::net_due(pending, credit))
        + BAHT_CLOSE@ + credit_note(credit) + TYPE_PAID_YOURSELF@
}

/// The reply to a slip whose amount could not be read.
pub fn slip_unreadable_reply(note: &str, pending_total: i64, credit: i64) -> (r: String)
    ensures
        r@ == unreadable_reply(note@, pending_total as int, credit as int),
{
    let mut out = String::new();
    out.append(SLIP_UNREADABLE);
    out.append(note);
    out.append(NOTE_THEN_DUE);
    push_baht_whole(&mut out, due(pending_total as i128, credit as i128));
    out.append(BAHT_CLOSE);
    push_credit_note(&mut out, credit);
    out.append(TYPE_PAID_YOURSELF);
    assert(out@ =~= unreadable_reply(note@, pending_total as int, credit as int));
    out
}

/// The reply when a slip could not be read at all: what is due after the
/// credit, and to record the payment by hand instead.
pub open spec fn failed_reply(pending: int, credit: int) -> Seq<char> {
    SLIP_FAILED@ + money::baht_whole(ledger::net_due(pending, credit)) + BAHT_CLOSE@ + credit_note(
        credit,
    ) + TYPE_PAID_INSTEAD@
}

/// The reply when a slip could not be read at all.
pub fn slip_failed_reply(pending_total: i64, credit: i64) -> (r: String)
    ensures
        r@ == failed_reply(pending_total as int, credit as int),
{
    let mut out = String::new();
    out.append(SLIP_FAILED);
    push_baht_whole(&mut out, due(pending_total as i128, credit as i128));
    out.append(BAHT_CLOSE);
    push_credit_note(&mut out, credit);
    out.append(TYPE_PAID_INSTEAD);
    assert(out@ =~= failed_reply(pending_total as int, credit as int));
    out
}

/// The reply to a cancelled expense: its id and the pending total left.
pub fn cancel_reply(id: i64, pending_total: i64) -> (r: String)
    ensures
        r@ == CANCELLED@ + text::signed_decimal(id as int) + CANCELLED_THEN_LEFT@
            + money::baht_2dp(pending_total as int) + BAHT_CLOSE@,
{
    let mut out = String::new();
    out.append(CANCELLED);
    push_signed(&mut out, id as i128);
    out.append(CANCELLED_THEN_LEFT);
    push_baht(&mut out, pending_total as i128);
    out.append(BAHT_CLOSE);
    out
}

/// The reply when there is no pending expense with the id to cancel.
pub fn cancel_missing_reply(id: i64) -> (r: String)
    ensures
        r@ == NOT_FOUND@ + text::signed_decimal(id as int) + NOT_FOUND_END@,
{
    let mut out = String::new();
    out.append(NOT_FOUND);
    push_signed(&mut out, id as i128);
    out.append(NOT_FOUND_END);
    out
}

/// The reply to clearing: that there was nothing to clear, or how many
/// expenses were cleared and what they came to.
pub open spec fn clearing_reply(cleared: nat, total: int) -> Seq<char> {
    if cleared == 0 {
        NOTHING_TO_CLEAR@
    } else {
        CLEARED@ + text::decimal(cleared) + ITEMS_TOTAL@ + money::baht_2dp(total) + BAHT_CLOSE@
    }
}

/// The reply to clearing `cleared` expenses worth `total`.
pub fn clear_reply(cleared: u64, total: i64) -> (r: String)
    ensures
        r@ == clearing_reply(cleared as nat, total as int),
{
    let mut out = String::new();
    if cleared == 0 {
        out.append(NOTHING_TO_CLEAR);
    } else {
        out.append(CLEARED);
        push_decimal(&mut out, cleared as u128);
        out.append(ITEMS_TOTAL);
        push_baht(&mut out, total as i128);
        out.append(BAHT_CLOSE);
    }
    assert(out@ =~= clearing_reply(cleared as nat, total as int));
    out
}

/// What `/paid` answers to an amount that is not above zero; `None` when
/// the amount is above zero and the payment is to be settled.
pub fn paid_refusal(amount: i64) -> (r: Option<String>)
    ensures
        amount > 0 ==> r is None,
        amount <= 0 ==> (r matches Some(t) && t@ == AMOUNT_NOT_POSITIVE@),
{
    if amount <= 0 {
        Some(AMOUNT_NOT_POSITIVE.to_owned())
    } else {
        None
    }
}

/// The help text that `/help` answers with.
pub fn help_text() -> (r: String)
    ensures
        r@ == HELP@,
{
    HELP.to_owned()
}

/// The reply to a payment always shows the credit held before it, when
/// that credit counts: its lines are the amount paid, the expenses cleared,
/// the pending total before, then that credit as it was, then the outcome
/// (the excess kept as credit, the shortfall, or an exact payment, by the
/// credit and payment less the pending total); without such credit the
/// credit line is left out.
pub proof fn law_settlement_shows_credit_held(paid: int, cleared: nat, pending: int, credit: int)
    ensures
        ({
            let lines = settlement_lines(paid, cleared, pending, credit);
            &&& lines[0] == PAYMENT_RECORDED@ + money::baht_2dp(paid) + BAHT_CLOSE@
            &&& lines[1] == CLEARED_PREFIX@ + text::decimal(cleared) + ITEMS@
            &&& lines[2] == PENDING_BEFORE@ + money::baht_2dp(pending) + BAHT_CLOSE@
            &&& credit > 1 ==> lines.len() == 5 && lines[3] == OLD_CREDIT@ + money::baht_2dp(credit)
                + BAHT_CLOSE@
            &&& credit <= 1 ==> lines.len() == 4
            &&& credit + paid - pending > 1 ==> lines.last() == OVERPAID@ + money::baht_2dp(
                credit + paid - pending,
            ) + KEPT_AS_CREDIT@
            &&& credit + paid - pending < -1 ==> lines.last() == SHORT_BY@ + money::baht_2dp(
                pending - credit - paid,
            ) + BAHT_CLOSE@
            &&& -1 <= credit + paid - pending <= 1 ==> lines.last() == EXACT@
        }),
{
}

/// The reply to a recorded expense, for all inputs: it names the item and
/// its amount; then, with credit that counts and a pending total (all the
/// chat's pending expenses, the new one included) within it, the credit
/// left is the credit less that whole pending total; with credit that does
/// not cover the pending total, the credit taken and the rest of the
/// pending total still to transfer; with no credit, the pending total.
pub proof fn law_recorded_reply(item: Seq<char>, amount: int, pending: int, credit: int)
    ensures
        ({
            let head = RECORDED@ + item + AFTER_ITEM@ + money::baht_whole(amount) + BAHT_NEWLINE@;
            let r = recorded_reply(item, amount, pending, credit);
            &&& credit > 1 && pending <= credit ==> r == head + CREDIT_COVERS@ + money::baht_whole(
                credit - pending,
            ) + BAHT_CLOSE_PAREN@
            &&& credit > 1 && pending > credit ==> r == head + CREDIT_TAKEN@ + money::baht_whole(
                credit,
            ) + CREDIT_TAKEN_THEN_DUE@ + money::baht_whole(pending - credit) + BAHT_CLOSE@
            &&& credit <= 1 ==> r == head + STILL_DUE@ + money::baht_whole(pending) + BAHT_CLOSE@
        }),
{
}

/// The reply to a clearing says that nothing was pending exactly when no
/// expense was cleared; otherwise it gives how many were cleared and their
/// total.
pub proof fn law_clearing_reply(cleared: nat, total: int)
    ensures
        clearing_reply(cleared, total) == NOTHING_TO_CLEAR@ <==> cleared == 0,
        cleared > 0 ==> clearing_reply(cleared, total) == CLEARED@ + text::decimal(cleared)
            + ITEMS_TOTAL@ + money::baht_2dp(total) + BAHT_CLOSE@,
{
    if cleared > 0 {
        reveal_strlit("✅ *เคลียร์แล้ว!*\n");
        reveal_strlit("ไม่มีรายการค้างชำระอยู่แล้ว");
        let r = clearing_reply(cleared, total);
        assert(r[0] == CLEARED@[0]);
        assert(r[0] != NOTHING_TO_CLEAR@[0]);
    }
}

} // verus!
