use kaobot::bot::{chat_allowed, parse_chat_id, sender_name, text_action, TextAction};
use kaobot::money::format_baht;
use kaobot::parser::parse_expense;
use kaobot::text::trim;

fn expense(text: &str) -> Option<(String, i64)> {
    parse_expense(text)
}

#[test]
fn readme_examples_parse() {
    assert_eq!(expense("rice 60"), Some(("rice".to_string(), 6000)));
    assert_eq!(expense("coffee 65.50"), Some(("coffee".to_string(), 6550)));
    assert_eq!(
        expense("household supplies 320"),
        Some(("household supplies".to_string(), 32000))
    );
    assert_eq!(expense("ข้าว 60"), Some(("ข้าว".to_string(), 6000)));
    assert_eq!(expense("กาแฟ 65.50"), Some(("กาแฟ".to_string(), 6550)));
}

#[test]
fn surrounding_white_space_is_ignored() {
    assert_eq!(expense("  rice   60  "), Some(("rice".to_string(), 6000)));
    assert_eq!(expense("rice\t60\n"), Some(("rice".to_string(), 6000)));
    assert_eq!(expense("ice  cream 45"), Some(("ice  cream".to_string(), 4500)));
}

#[test]
fn amounts_must_be_above_zero_and_under_a_million() {
    assert_eq!(expense("rice 0"), None);
    assert_eq!(expense("rice 0.00"), None);
    assert_eq!(expense("rice -5"), None);
    assert_eq!(expense("car 1000000"), None);
    assert_eq!(expense("car 999999.99"), Some(("car".to_string(), 99999999)));
    assert_eq!(expense("tip 0.01"), Some(("tip".to_string(), 1)));
}

#[test]
fn anything_else_is_no_expense() {
    assert_eq!(expense(""), None);
    assert_eq!(expense("   "), None);
    assert_eq!(expense("60"), None);
    assert_eq!(expense("rice"), None);
    assert_eq!(expense("rice sixty"), None);
    assert_eq!(expense("rice 60 baht"), None);
    assert_eq!(expense("hello there"), None);
}

#[test]
fn written_expenses_read_back() {
    for (item, v) in [("rice", 6000i64), ("household supplies", 32050), ("ข้าว", 1)] {
        let message = format!("{} {}", item, format_baht(v as i128));
        assert_eq!(expense(&message), Some((item.to_string(), v)));
    }
}

#[test]
fn trimming_follows_str_trim() {
    for s in ["  a b  ", "\u{3000}x\u{00A0}", "", "   ", "\t\n y \r"] {
        assert_eq!(trim(s), s.trim());
    }
}

#[test]
fn chat_ids_parse_like_i64() {
    for s in ["-1001234567890", "42", "+7", "0", "-0", "9223372036854775807", "-9223372036854775808"] {
        assert_eq!(parse_chat_id(s), s.parse::<i64>().ok());
    }
    for s in ["", "-", "+", "12a", " 12", "9223372036854775808", "-9223372036854775809", "1.5"] {
        assert_eq!(parse_chat_id(s), None);
        assert!(s.parse::<i64>().is_err());
    }
}

#[test]
fn only_the_allowed_chat_is_served() {
    assert!(chat_allowed(None, -100));
    assert!(chat_allowed(Some(-100), -100));
    assert!(!chat_allowed(Some(-100), -101));
}

#[test]
fn sender_names_fall_back() {
    assert_eq!(sender_name(Some("kao".to_string()), Some("Kao".to_string())), "kao");
    assert_eq!(sender_name(None, Some("Kao".to_string())), "Kao");
    assert_eq!(sender_name(None, None), "unknown");
}

#[test]
fn text_messages_become_expenses_or_are_ignored() {
    match text_action(Some(5), 5, "rice 60") {
        TextAction::Record(item, amount) => {
            assert_eq!(item, "rice");
            assert_eq!(amount, 6000);
        }
        TextAction::Ignore => panic!("expected an expense"),
    }
    assert!(matches!(text_action(Some(5), 6, "rice 60"), TextAction::Ignore));
    assert!(matches!(text_action(None, 6, "/paid 60"), TextAction::Ignore));
    assert!(matches!(text_action(None, 6, "good morning"), TextAction::Ignore));
    assert!(matches!(text_action(None, 6, "rice 60"), TextAction::Record(_, 6000)));
}
