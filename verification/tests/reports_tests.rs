use kaobot::clock::{today_start, today_start_utc};
use kaobot::reports::{history_text, latest_first, summary_text, today_text, total_of, Expense};
use kaobot::supabase::{
    bearer, cancel_expense_url, clear_expenses_url, credit_balance_url, credit_of,
    credit_upsert_url, expenses_url, payments_url, pending_expenses_url, pending_summary_url,
    pending_total_of, today_expenses_url,
};

/// 2024-03-18 10:30 in Bangkok.
const MORNING: i64 = 1710732600;
/// 2024-03-19 00:05 in Bangkok.
const AFTER_MIDNIGHT: i64 = 1710781500;
/// 2024-03-18 06:59 in Bangkok.
const EARLY: i64 = 1710719940;

/// An expense recorded at `secs` seconds since the epoch (the library keeps
/// microseconds).
fn expense(id: i64, item: &str, amount: i64, secs: i64) -> Expense {
    Expense {
        id,
        item: item.to_string(),
        amount,
        paid_by: "kao".to_string(),
        created_at: secs * 1_000_000,
    }
}

#[test]
fn summary_lists_pending_expenses_and_credit() {
    let expenses = vec![expense(7, "ข้าว", 6000, EARLY), expense(42, "กาแฟ", 6550, MORNING)];
    let s = summary_text(&expenses, 5000);
    let expected = [
        "*รายการค้างชำระ:*\n".to_string(),
        format!("`{:>3}.` {} — *{:.2}฿* _{}_", 7, "ข้าว", 60.0, "18/03 06:59"),
        format!("`{:>3}.` {} — *{:.2}฿* _{}_", 42, "กาแฟ", 65.5, "18/03 10:30"),
        format!("\n*รวมทั้งหมด: {:.2} บาท*", 125.5),
        format!("credit คงเหลือ: *{:.2} บาท*", 50.0),
        format!("ยอดที่ต้องโอน: *{:.2} บาท*", 75.5),
        "\nโอนแล้วส่งสลิป หรือพิมพ์ `/paid <จำนวน>`".to_string(),
    ]
    .join("\n");
    assert_eq!(s, expected);
}

#[test]
fn summary_without_credit_and_when_empty() {
    let expenses = vec![expense(1234, "rice", 6000, MORNING)];
    let s = summary_text(&expenses, 0);
    assert!(s.contains("`1234.` rice — *60.00฿* _18/03 10:30_"));
    assert!(!s.contains("credit"));
    assert_eq!(summary_text(&vec![], 0), "ไม่มียอดค้างชำระ เคลียร์หมดแล้ว");
    assert_eq!(
        summary_text(&vec![], 1234),
        format!(
            "ไม่มียอดค้างชำระ\n💰 credit คงเหลือ *{:.2} บาท* — จะหักอัตโนมัติเมื่อมีรายการใหม่",
            12.34
        )
    );
}

#[test]
fn summary_lists_every_pending_expense() {
    let expenses: Vec<Expense> = (0..23).map(|i| expense(i, "x", 100, MORNING)).collect();
    let s = summary_text(&expenses, 0);
    let lines: Vec<&str> = s.split('\n').collect();
    assert_eq!(lines.iter().filter(|l| l.starts_with('`')).count(), 23);
    assert!(!s.contains("และอีก"));
    assert!(s.contains("*รวมทั้งหมด: 23.00 บาท*"));
}

#[test]
fn today_lists_times_and_total() {
    let expenses = vec![expense(1, "rice", 6000, EARLY), expense(2, "tea", 2550, MORNING)];
    let expected = [
        "*รายการวันนี้:*\n".to_string(),
        format!("• {} — *{:.2}฿* _{}_", "rice", 60.0, "06:59"),
        format!("• {} — *{:.2}฿* _{}_", "tea", 25.5, "10:30"),
        format!("\nรวมวันนี้: *{:.2} บาท*", 85.5),
    ]
    .join("\n");
    assert_eq!(today_text(&expenses), expected);
    assert_eq!(today_text(&vec![]), "วันนี้ยังไม่มีรายการ");
}

#[test]
fn history_shows_the_ten_latest_first() {
    let mut expenses: Vec<Expense> =
        (0..12).map(|i| expense(i, "x", 100, MORNING + 60 * i)).collect();
    expenses.push(expense(100, "same-time-first", 100, MORNING + 60 * 11));
    let order = latest_first(&expenses, 10);
    assert_eq!(order, vec![11, 12, 10, 9, 8, 7, 6, 5, 4, 3]);
    let h = history_text(&expenses);
    let lines: Vec<&str> = h.split('\n').collect();
    assert_eq!(lines[0], "*10 รายการล่าสุด:*");
    assert_eq!(lines[1], "");
    assert_eq!(
        lines[2],
        format!("`#{}`  {} — *{:.2}฿*  _{}_ (by {})", 11, "x", 1.0, "18/03 10:41", "kao")
    );
    assert!(lines[3].starts_with("`#100`  same-time-first"));
    assert_eq!(lines.len(), 12);
    assert_eq!(history_text(&vec![]), "ไม่มีรายการค้างชำระ");
}

#[test]
fn history_order_matches_a_stable_sort() {
    let stamps = [5i64, 3, 5, 9, 1, 3, 3, 9, 0, 7, 5, 2];
    let expenses: Vec<Expense> =
        stamps.iter().enumerate().map(|(i, t)| expense(i as i64, "x", 1, *t)).collect();
    let mut expected: Vec<usize> = (0..stamps.len()).collect();
    expected.sort_by_key(|&i| std::cmp::Reverse(stamps[i]));
    expected.truncate(10);
    assert_eq!(latest_first(&expenses, 10), expected);
    assert_eq!(latest_first(&expenses, 0), Vec::<usize>::new());
    let first_three: Vec<Expense> = expenses.into_iter().take(3).collect();
    assert_eq!(latest_first(&first_three, 10), vec![0, 2, 1]);
}

#[test]
fn totals_add_up() {
    let expenses = vec![expense(1, "a", i64::MAX, 0), expense(2, "b", i64::MAX, 0)];
    assert_eq!(total_of(&expenses), 2 * (i64::MAX as i128));
    assert_eq!(total_of(&vec![]), 0);
}

#[test]
fn today_starts_at_bangkok_midnight() {
    assert_eq!(today_start_utc(MORNING), "2024-03-17T17:00:00Z");
    assert_eq!(today_start_utc(AFTER_MIDNIGHT), "2024-03-18T17:00:00Z");
    assert_eq!(today_start_utc(1710781199), "2024-03-17T17:00:00Z");
    assert_eq!(today_start_utc(1710781200), "2024-03-18T17:00:00Z");
    assert_eq!(today_start(MORNING), 1710694800);
    assert_eq!(today_start_utc(i64::MIN), "");
}

#[test]
fn requests_are_filtered_by_chat() {
    let base = "https://db.example";
    assert_eq!(expenses_url(base), "https://db.example/rest/v1/expenses");
    assert_eq!(payments_url(base), "https://db.example/rest/v1/payments");
    assert_eq!(credit_upsert_url(base), "https://db.example/rest/v1/credit_balance");
    assert_eq!(
        pending_summary_url(base, -100),
        format!("{}/rest/v1/pending_summary?chat_id=eq.{}", base, -100)
    );
    assert_eq!(
        pending_expenses_url(base, -100),
        format!(
            "{}/rest/v1/expenses?chat_id=eq.{}&is_cleared=eq.false&order=created_at.asc",
            base, -100
        )
    );
    assert_eq!(
        today_expenses_url(base, 42, MORNING),
        format!(
            "{}/rest/v1/expenses?chat_id=eq.{}&is_cleared=eq.false&created_at=gte.{}&order=created_at.asc",
            base, 42, "2024-03-17T17:00:00Z"
        )
    );
    assert_eq!(
        clear_expenses_url(base, 42),
        format!("{}/rest/v1/expenses?chat_id=eq.{}&is_cleared=eq.false", base, 42)
    );
    assert_eq!(
        cancel_expense_url(base, 42, 7),
        format!("{}/rest/v1/expenses?id=eq.{}&chat_id=eq.{}&is_cleared=eq.false", base, 7, 42)
    );
    assert_eq!(
        credit_balance_url(base, 42),
        format!("{}/rest/v1/credit_balance?chat_id=eq.{}&select=balance", base, 42)
    );
    assert_ne!(pending_expenses_url(base, 1), pending_expenses_url(base, -1));
    assert_eq!(bearer("k"), "Bearer k");
}

#[test]
fn first_rows_or_zero() {
    assert_eq!(pending_total_of(&vec![Some(500), Some(7)]), 500);
    assert_eq!(pending_total_of(&vec![None]), 0);
    assert_eq!(pending_total_of(&vec![]), 0);
    assert_eq!(credit_of(&vec![300]), 300);
    assert_eq!(credit_of(&vec![]), 0);
}

#[test]
fn history_orders_within_a_second() {
    let mut first = expense(1, "first", 100, MORNING);
    let mut second = expense(2, "second", 100, MORNING);
    first.created_at += 250_000;
    second.created_at += 750_000;
    assert_eq!(latest_first(&vec![first, second], 10), vec![1, 0]);
}

#[test]
fn times_before_the_epoch_round_down_to_the_second() {
    // 1969-12-31 23:59:59.5 UTC is 06:59 in Bangkok.
    let e = Expense {
        id: 1,
        item: "x".to_string(),
        amount: 100,
        paid_by: "kao".to_string(),
        created_at: -500_000,
    };
    let t = today_text(&vec![e]);
    assert!(t.contains("_06:59_"));
}
