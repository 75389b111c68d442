use kaobot::payment::{
    clear_step, clearing_start, payment_start, payment_step, ClearAction, ClearEvent, PaymentAction,
    PaymentEvent, PaymentFlow,
};
use kaobot::supabase::{credit_record, expense_record, payment_record};
use kaobot::ledger::{due, settle};
use kaobot::money::{format_baht, format_baht_whole, parse_decimal};
use kaobot::replies::{
    cancel_missing_reply, cancel_reply, clear_reply, expense_recorded_reply, help_text,
    paid_refusal, settlement_reply, slip_failed_reply, slip_settled_reply, slip_unreadable_reply,
};

#[test]
fn amounts_are_written_like_float_formatting() {
    assert_eq!(format_baht(6550), format!("{:.2}", 65.5));
    assert_eq!(format_baht(5), "0.05");
    assert_eq!(format_baht(-1205), "-12.05");
    assert_eq!(format_baht(150000), "1500.00");
    assert_eq!(format_baht(0), "0.00");
    assert_eq!(format_baht_whole(6000), "60");
    assert_eq!(format_baht_whole(6549), "65");
    assert_eq!(format_baht_whole(6551), "66");
    // Half a baht goes to the even neighbour, as `{:.0}` does.
    assert_eq!(format_baht_whole(6050), format!("{:.0}", 60.5));
    assert_eq!(format_baht_whole(6150), format!("{:.0}", 61.5));
    assert_eq!(format_baht_whole(-250), format!("{:.0}", -2.5));
}

#[test]
fn decimals_read_as_satang() {
    assert_eq!(parse_decimal("60"), Some(6000));
    assert_eq!(parse_decimal("65.50"), Some(6550));
    assert_eq!(parse_decimal("65.5"), Some(6550));
    assert_eq!(parse_decimal("0.05"), Some(5));
    assert_eq!(parse_decimal("-3"), Some(-300));
    assert_eq!(parse_decimal("1.005"), Some(101));
    assert_eq!(parse_decimal("1.004"), Some(100));
    assert_eq!(parse_decimal("1.0049"), Some(100));
    assert_eq!(parse_decimal("abc"), None);
    assert_eq!(parse_decimal(""), None);
    assert_eq!(parse_decimal("."), None);
    assert_eq!(parse_decimal("5."), None);
    assert_eq!(parse_decimal(".5"), None);
    assert_eq!(parse_decimal("1.2.3"), None);
    assert_eq!(parse_decimal("-"), None);
    assert_eq!(parse_decimal("1e3"), None);
    assert_eq!(parse_decimal("92233720368547758.07"), Some(i64::MAX));
    assert_eq!(parse_decimal("-92233720368547758.08"), Some(i64::MIN));
    assert_eq!(parse_decimal("92233720368547758.08"), None);
    assert_eq!(parse_decimal("99999999999999999999999"), None);
}

#[test]
fn amounts_read_back() {
    for v in [1i64, 5, 99, 100, 6550, 99999999, -1, -6550, i64::MAX, i64::MIN] {
        assert_eq!(parse_decimal(&format_baht(v as i128)), Some(v));
    }
}

#[test]
fn settlement_keeps_overpayment_as_credit() {
    // 500 paid against 320 pending with no credit: 180 becomes credit.
    let s = settle(32000, 0, 50000);
    assert_eq!(s.balance, 18000);
    assert_eq!(s.new_credit, 18000);
    // Short by 20: no credit.
    let s = settle(32000, 0, 30000);
    assert_eq!(s.balance, -2000);
    assert_eq!(s.new_credit, 0);
    // A one-satang difference counts as none.
    let s = settle(32000, 0, 32001);
    assert_eq!(s.new_credit, 0);
    let s = settle(32000, 0, 32002);
    assert_eq!(s.new_credit, 2);
    // Credit held counts towards the payment.
    let s = settle(32000, 10000, 22000);
    assert_eq!(s.balance, 0);
    assert_eq!(s.new_credit, 0);
}

#[test]
fn paying_what_is_due_settles_exactly() {
    for (pending, credit) in [(32000i64, 0i64), (32000, 10000), (100, 99), (5000, 5000)] {
        let d = due(pending as i128, credit as i128) as i64;
        let s = settle(pending, credit, d);
        assert_eq!(s.balance, 0);
        assert_eq!(s.new_credit, 0);
    }
    // With more credit than pending, nothing is due and the excess stays.
    assert_eq!(due(3000, 10000), 0);
    assert_eq!(settle(3000, 10000, 0).new_credit, 7000);
}

#[test]
fn recorded_reply_without_credit() {
    let r = expense_recorded_reply("ข้าว", 6000, 12050, 0);
    assert_eq!(
        r,
        format!("✅ บันทึกแล้ว: *{}* {:.0} บาท\n💰 ยอดค้าง: *{:.0} บาท*", "ข้าว", 60.0, 120.5)
    );
}

#[test]
fn recorded_reply_with_partial_credit() {
    let r = expense_recorded_reply("coffee", 6550, 20000, 5000);
    assert_eq!(
        r,
        format!(
            "✅ บันทึกแล้ว: *{}* {:.0} บาท\n🏦 หัก credit *{:.0} บาท* แล้ว\n💰 ยอดที่ต้องโอน: *{:.0} บาท*",
            "coffee", 65.5, 50.0, 150.0
        )
    );
}

#[test]
fn recorded_reply_covered_by_credit() {
    let r = expense_recorded_reply("rice", 6000, 6000, 18000);
    assert_eq!(
        r,
        format!(
            "✅ บันทึกแล้ว: *{}* {:.0} บาท\n🏦 หัก credit แล้ว — ยังไม่ต้องโอน (credit เหลือ *{:.0} บาท*)",
            "rice", 60.0, 120.0
        )
    );
}

#[test]
fn settlement_reply_lines() {
    let r = settlement_reply(50000, 3, 32000, 0);
    assert_eq!(
        r,
        [
            format!("✅ *บันทึกการโอน {:.2} บาท*", 500.0),
            format!("เคลียร์ {} รายการ", 3),
            format!("ยอดค้างก่อนหน้า: *{:.2} บาท*", 320.0),
            format!("โอนเกิน *{:.2} บาท* — เก็บเป็น credit หักรายการหน้าอัตโนมัติ", 180.0),
        ]
        .join("\n")
    );
    let r = settlement_reply(30000, 2, 32000, 1000);
    assert_eq!(
        r,
        [
            format!("✅ *บันทึกการโอน {:.2} บาท*", 300.0),
            format!("เคลียร์ {} รายการ", 2),
            format!("ยอดค้างก่อนหน้า: *{:.2} บาท*", 320.0),
            format!("credit เดิม: *{:.2} บาท*", 10.0),
            format!("⚠️ ยังขาดอยู่ *{:.2} บาท*", 10.0),
        ]
        .join("\n")
    );
    let r = settlement_reply(32000, 1, 32000, 0);
    assert!(r.ends_with("\nยอดตรงพอดี"));
    assert!(!r.contains("credit เดิม"));
}

#[test]
fn slip_replies() {
    let settled = settlement_reply(50000, 1, 50000, 0);
    let r = slip_settled_reply(50000, "โอน 500 บาท", &settled);
    assert_eq!(
        r,
        format!(
            "🎉 *อ่านสลิปสำเร็จ!*\n💸 ยอดโอน: *{:.0} บาท*\n📝 {}\n{}",
            500.0, "โอน 500 บาท", settled
        )
    );
    let r = slip_unreadable_reply("unreadable", 32000, 5000);
    assert_eq!(
        r,
        format!(
            "📎 ได้รับสลิปแล้ว แต่อ่านยอดไม่ได้\n_{}_\n\n💰 ยอดค้าง: *{:.0} บาท*{}\nกรุณาพิมพ์ `/paid <จำนวน>` เพื่อบันทึกเอง",
            "unreadable",
            270.0,
            format!(" _(หลังหัก credit {:.0}฿)_", 50.0)
        )
    );
    let r = slip_failed_reply(32000, 0);
    assert_eq!(
        r,
        format!(
            "❌ อ่านสลิปไม่สำเร็จ\n💰 ยอดค้าง: *{:.0} บาท*{}\nกรุณาพิมพ์ `/paid <จำนวน>` แทน",
            320.0,
            String::new()
        )
    );
}

#[test]
fn cancel_clear_and_paid_replies() {
    assert_eq!(
        cancel_reply(42, 12050),
        format!("ยกเลิกรายการ #{} แล้ว\nยอดค้างเหลือ: *{:.2} บาท*", 42, 120.5)
    );
    assert_eq!(
        cancel_missing_reply(-7),
        format!("❌ ไม่พบรายการ #{} หรือถูกเคลียร์ไปแล้ว", -7)
    );
    assert_eq!(clear_reply(0, 0), "ไม่มีรายการค้างชำระอยู่แล้ว");
    assert_eq!(
        clear_reply(3, 45000),
        format!("✅ *เคลียร์แล้ว!*\n{} รายการ รวม *{:.2} บาท*", 3, 450.0)
    );
    assert_eq!(paid_refusal(0).as_deref(), Some("❌ จำนวนเงินต้องมากกว่า 0"));
    assert_eq!(paid_refusal(-100).as_deref(), Some("❌ จำนวนเงินต้องมากกว่า 0"));
    assert_eq!(paid_refusal(1), None);
    assert!(help_text().starts_with("*KaoBot — ผู้ช่วยบันทึกค่าใช้จ่าย*\n\n"));
    assert!(help_text().ends_with("bot จะอ่านยอดและเคลียร์ให้อัตโนมัติ"));
}

#[test]
fn settlement_steps_come_in_order() {
    let s = payment_start(-100123, 10000);
    let (s, a) = payment_step(s, PaymentEvent::Started);
    assert!(matches!(a, PaymentAction::ReadPending(-100123)));
    let (s, a) = payment_step(s, PaymentEvent::PendingRead(Some(6000)));
    assert!(matches!(a, PaymentAction::ReadCredit(-100123)));
    let (s, a) = payment_step(s, PaymentEvent::CreditRead(None));
    assert!(matches!(a, PaymentAction::WritePayment(-100123)));
    let (_, failed) = payment_step(s, PaymentEvent::PaymentWritten(false));
    assert!(matches!(failed, PaymentAction::Fail));
    let (s, a) = payment_step(s, PaymentEvent::PaymentWritten(true));
    assert!(matches!(a, PaymentAction::ClearExpenses(-100123)));
    let (_, failed) = payment_step(s, PaymentEvent::ExpensesCleared(None));
    assert!(matches!(failed, PaymentAction::Fail));
    let (s, a) = payment_step(s, PaymentEvent::ExpensesCleared(Some(3)));
    assert!(matches!(a, PaymentAction::WriteCredit(-100123, 4000)));
    let (s, a) = payment_step(s, PaymentEvent::CreditWritten(false));
    assert!(matches!(a, PaymentAction::Reply));
    assert_eq!((s.chat, s.paid, s.pending, s.credit, s.cleared), (-100123, 10000, 6000, 0, 3));
}

#[test]
fn settlement_keeps_no_credit_within_a_satang_and_caps_it() {
    let s = PaymentFlow { chat: 1, paid: 5001, pending: 5000, credit: 0, cleared: 0 };
    let (_, a) = payment_step(s, PaymentEvent::ExpensesCleared(Some(1)));
    assert!(matches!(a, PaymentAction::WriteCredit(1, 0)));
    let s = PaymentFlow { chat: 1, paid: i64::MAX, pending: 0, credit: i64::MAX, cleared: 0 };
    let (_, a) = payment_step(s, PaymentEvent::ExpensesCleared(Some(0)));
    assert!(matches!(a, PaymentAction::WriteCredit(1, i64::MAX)));
}

#[test]
fn records_carry_their_chat() {
    let e = expense_record(-100123, 7, "rice", 6000, "kao");
    assert_eq!((e.chat_id, e.message_id, e.item.as_str(), e.amount, e.paid_by.as_str()), (-100123, 7, "rice", 6000, "kao"));
    let p = payment_record(-100123, Some(8), 10000, "slip", Some("100 THB".to_string()));
    assert_eq!((p.chat_id, p.message_id, p.amount, p.method.as_str()), (-100123, Some(8), 10000, "slip"));
    assert_eq!(p.note.as_deref(), Some("100 THB"));
    let c = credit_record(-100123, 250);
    assert_eq!((c.chat_id, c.balance), (-100123, 250));
}

#[test]
fn clearing_writes_only_when_something_is_pending() {
    let s = clearing_start(42);
    let (s, a) = clear_step(s, ClearEvent::Started);
    assert!(matches!(a, ClearAction::ReadPending(42)));
    let (_, none) = clear_step(s, ClearEvent::PendingRead(0));
    assert!(matches!(none, ClearAction::Done(0)));
    let (s, a) = clear_step(s, ClearEvent::PendingRead(5));
    assert!(matches!(a, ClearAction::MarkCleared(42)));
    let (_, a) = clear_step(s, ClearEvent::Cleared);
    assert!(matches!(a, ClearAction::Done(5)));
}
