use kaobot::number::parse_number;
use kaobot::replies::TRUNCATED_SLIP;
use kaobot::slip::{
    encode_photo, extract_json_object, first_part_text, gemini_url, is_truncated,
    read_slip_text, slip_from_answer, slip_from_candidates, slip_from_fields, Candidate,
    GEMINI_ENDPOINT, SLIP_PROMPT,
};

#[test]
fn test_parse_valid_gemini_json() {
    let raw = r#"{"amount": 500.00, "note": "โอนเงิน 500 บาท เมื่อ 18/03 10:30"}"#;
    let slip = read_slip_text(raw.trim());
    assert_eq!(slip.amount, Some(50000));
    assert_eq!(slip.raw_text, "โอนเงิน 500 บาท เมื่อ 18/03 10:30");
}

#[test]
fn test_parse_null_amount() {
    let raw = r#"{"amount": null, "note": "อ่านยอดไม่ได้"}"#;
    let slip = read_slip_text(raw.trim());
    assert!(slip.amount.is_none());
    assert_eq!(slip.raw_text, "อ่านยอดไม่ได้");
}

#[test]
fn test_parse_non_json_fallback() {
    let raw = "ขออภัย ไม่สามารถอ่านสลิปได้";
    let slip = read_slip_text(raw.trim());
    assert!(slip.amount.is_none());
    assert_eq!(slip.raw_text, raw);
}

#[test]
fn test_extract_json_fence_with_lang() {
    let input = "```json\n{\"amount\": 100.0, \"note\": \"test\"}\n```";
    let result = extract_json_object(input).unwrap();
    let parsed: serde_json::Value = serde_json::from_str(&result).unwrap();
    assert_eq!(parsed["amount"].as_f64(), Some(100.0));
}

#[test]
fn test_extract_json_fence_no_lang() {
    let input = "```\n{\"amount\": 200.0, \"note\": \"test2\"}\n```";
    let result = extract_json_object(input).unwrap();
    let parsed: serde_json::Value = serde_json::from_str(&result).unwrap();
    assert_eq!(parsed["amount"].as_f64(), Some(200.0));
}

#[test]
fn test_extract_json_no_fence() {
    let input = "{\"amount\": 300.0, \"note\": \"no fence\"}";
    let result = extract_json_object(input).unwrap();
    let parsed: serde_json::Value = serde_json::from_str(&result).unwrap();
    assert_eq!(parsed["amount"].as_f64(), Some(300.0));
}

#[test]
fn test_extract_json_embedded_in_text() {
    let input = "ยอดโอนคือ {\"amount\": 50.0, \"note\": \"embedded\"} ครับ";
    let result = extract_json_object(input).unwrap();
    let parsed: serde_json::Value = serde_json::from_str(&result).unwrap();
    assert_eq!(parsed["amount"].as_f64(), Some(50.0));
}

#[test]
fn test_extract_json_no_json() {
    let input = "ขออภัย ไม่สามารถอ่านสลิปได้";
    assert!(extract_json_object(input).is_none());
}

#[test]
fn test_extract_json_truncated() {
    let input = "{\"amount\": 100.";
    let result = extract_json_object(input);
    assert!(result.is_none());
}

#[test]
fn test_extract_then_parse() {
    let input = "```json\n{\"amount\": 100.0, \"note\": \"โอน 100 บาท\"}\n```";
    let extracted = extract_json_object(input).unwrap();
    let parsed: serde_json::Value = serde_json::from_str(&extracted).unwrap();
    assert_eq!(parsed["amount"].as_f64(), Some(100.0));
    assert_eq!(parsed["note"].as_str(), Some("โอน 100 บาท"));
}

#[test]
fn test_response_deserialization() {
    let raw = r#"{
            "candidates": [{
                "content": {
                    "parts": [{"text": "{\"amount\": 250.0, \"note\": \"โอน 250 บาท\"}"}]
                }
            }]
        }"#;

    let resp: serde_json::Value = serde_json::from_str(raw).unwrap();
    let candidate = &resp["candidates"][0];
    let parts: Vec<Option<String>> = candidate["content"]["parts"]
        .as_array()
        .unwrap()
        .iter()
        .map(|p| p["text"].as_str().map(|t| t.to_string()))
        .collect();
    let text = first_part_text(&parts);
    let parsed: serde_json::Value = serde_json::from_str(text.trim()).unwrap();
    assert_eq!(parsed["amount"].as_f64(), Some(250.0));
    assert_eq!(parsed["note"].as_str(), Some("โอน 250 บาท"));

    let slip = slip_from_answer(candidate["finishReason"].as_str(), &parts);
    assert_eq!(slip.amount, Some(25000));
    assert_eq!(slip.raw_text, "โอน 250 บาท");
}

#[test]
fn extract_keeps_inner_braces_and_drops_reversed_ones() {
    assert_eq!(
        extract_json_object("x {\"a\": {\"b\": 1}} y").as_deref(),
        Some("{\"a\": {\"b\": 1}}")
    );
    assert!(extract_json_object("} before {").is_none());
    assert!(extract_json_object("no closing { here").is_none());
    assert!(extract_json_object("no opening } here").is_none());
    assert_eq!(extract_json_object("{}").as_deref(), Some("{}"));
}

#[test]
fn braces_inside_strings_are_kept() {
    assert_eq!(extract_json_object("{\"a\":\"}\"}").as_deref(), Some("{\"a\":\"}\"}"));
    assert_eq!(
        extract_json_object("ans {\"note\": \"x}y\", \"amount\": 5} ok").as_deref(),
        Some("{\"note\": \"x}y\", \"amount\": 5}")
    );
    assert_eq!(extract_json_object("{\"a\": 1}}").as_deref(), Some("{\"a\": 1}}"));
}

#[test]
fn truncated_answers_read_as_no_amount() {
    let parts = vec![Some("{\"amount\": 100.0, \"note\": \"x\"}".to_string())];
    let slip = slip_from_answer(Some("MAX_TOKENS"), &parts);
    assert_eq!(slip.amount, None);
    assert_eq!(slip.raw_text, TRUNCATED_SLIP);
    let slip = slip_from_answer(Some("2"), &parts);
    assert_eq!(slip.amount, None);
    let slip = slip_from_answer(Some("STOP"), &parts);
    assert_eq!(slip.amount, Some(10000));
    assert!(is_truncated(Some("MAX_TOKENS")));
    assert!(is_truncated(Some("2")));
    assert!(!is_truncated(Some("STOP")));
    assert!(!is_truncated(Some("")));
    assert!(!is_truncated(None));
}

#[test]
fn first_text_skips_parts_without_text() {
    let parts = vec![None, Some("second".to_string()), Some("third".to_string())];
    assert_eq!(first_part_text(&parts), "second");
    assert_eq!(first_part_text(&vec![None, None]), "");
    assert_eq!(first_part_text(&vec![]), "");
}

#[test]
fn slip_fields_fall_back_to_the_trimmed_text() {
    let slip = slip_from_fields("  hello  ", None);
    assert_eq!(slip.amount, None);
    assert_eq!(slip.raw_text, "hello");
    let slip = slip_from_fields(" t ", Some((Some("65.5".to_string()), None)));
    assert_eq!(slip.amount, Some(6550));
    assert_eq!(slip.raw_text, "t");
    let slip = read_slip_text("ans: {\"amount\": \"100\", \"note\": 5} ");
    assert_eq!(slip.amount, None);
    assert_eq!(slip.raw_text, "ans: {\"amount\": \"100\", \"note\": 5}");
    let slip = read_slip_text("{\"amount\": 1234.5, \"note\": \"n\"}");
    assert_eq!(slip.amount, Some(123450));
    let slip = read_slip_text("{\"amount\": 12, \"note\": \"n\"}");
    assert_eq!(slip.amount, Some(1200));
    let slip = read_slip_text("{\"amount\": -3.25, \"note\": \"n\"}");
    assert_eq!(slip.amount, Some(-325));
    let slip = read_slip_text("{broken json}");
    assert_eq!(slip.amount, None);
    assert_eq!(slip.raw_text, "{broken json}");
}

#[test]
fn photos_are_encoded_in_standard_base64() {
    assert_eq!(encode_photo(b"hello"), "aGVsbG8=");
    assert_eq!(encode_photo(b"hell"), "aGVsbA==");
    assert_eq!(encode_photo(&[0xff, 0xfe]), "//4=");
    assert_eq!(encode_photo(b""), "");
}

#[test]
fn gemini_url_ends_with_the_key() {
    let url = gemini_url("SECRET-REDACTED");
    assert_eq!(url, format!("{}{}", GEMINI_ENDPOINT, "SECRET-REDACTED"));
    assert!(url.starts_with("https://generativelanguage.googleapis.com/v1beta/models/"));
    assert!(SLIP_PROMPT.contains("{\"amount\": null, \"note\": \"unreadable\"}"));
}

#[test]
fn amounts_in_exponent_form_are_read() {
    let slip = read_slip_text("{\"amount\": 1e16, \"note\": \"big\"}");
    assert_eq!(slip.amount, Some(1_000_000_000_000_000_000));
    let slip = read_slip_text("{\"amount\": 1.5e-7, \"note\": \"tiny\"}");
    assert_eq!(slip.amount, Some(0));
    let slip = read_slip_text("{\"amount\": 2.5E2, \"note\": \"n\"}");
    assert_eq!(slip.amount, Some(25000));
    let slip = read_slip_text("{\"amount\": 1e20, \"note\": \"too big\"}");
    assert_eq!(slip.amount, None);
}

#[test]
fn numbers_read_to_the_satang() {
    assert_eq!(parse_number("1e+16"), Some(1_000_000_000_000_000_000));
    assert_eq!(parse_number("5e+02"), Some(50000));
    assert_eq!(parse_number("1.5e-7"), Some(0));
    assert_eq!(parse_number("1.5e-2"), Some(2));
    assert_eq!(parse_number("1.49e-2"), Some(1));
    assert_eq!(parse_number("0.005"), Some(1));
    assert_eq!(parse_number("0.0049"), Some(0));
    assert_eq!(parse_number("-92233720368547758.08"), Some(i64::MIN));
    assert_eq!(parse_number("92233720368547758.08"), None);
    assert_eq!(parse_number("0e999999999999999999999999"), Some(0));
    assert_eq!(parse_number("1e999999999999999999999999"), None);
    assert_eq!(parse_number("7e-999999999999999999999999"), Some(0));
    assert_eq!(parse_number("100.5"), Some(10050));
    assert_eq!(parse_number("12."), None);
    assert_eq!(parse_number(".5"), None);
    assert_eq!(parse_number("1e"), None);
    assert_eq!(parse_number("1e+"), None);
    assert_eq!(parse_number("abc"), None);
    assert_eq!(parse_number(""), None);
}

#[test]
fn the_first_candidate_is_read() {
    let first = Candidate {
        finish_reason: Some("STOP".to_string()),
        parts: vec![None, Some("{\"amount\": 250.0, \"note\": \"first\"}".to_string())],
    };
    let second = Candidate {
        finish_reason: None,
        parts: vec![Some("{\"amount\": 1.0, \"note\": \"second\"}".to_string())],
    };
    let slip = slip_from_candidates(&vec![first, second]);
    assert_eq!(slip.amount, Some(25000));
    assert_eq!(slip.raw_text, "first");
    let cut = Candidate { finish_reason: Some("MAX_TOKENS".to_string()), parts: vec![] };
    let slip = slip_from_candidates(&vec![cut]);
    assert_eq!(slip.amount, None);
    assert_eq!(slip.raw_text, TRUNCATED_SLIP);
    let slip = slip_from_candidates(&vec![]);
    assert_eq!(slip.amount, None);
    assert_eq!(slip.raw_text, "");
}
