//! Reading a bank transfer slip: the photo goes to Gemini Vision as Base64,
//! and the amount is read from the JSON object in Gemini's answer.
use vstd::prelude::*;
use vstd::string::*;
use base64::Engine;
use crate::number::{self, parse_number};
use crate::replies::TRUNCATED_SLIP;
use crate::text::{self, chars_of, trim};

verus! {

/// The character of the Base64 alphabet (RFC 4648) for a six-bit value:
/// `A`-`Z`, `a`-`z`, `0`-`9`, `+`, `/`.
pub open spec fn base64_digit(v: int) -> char {
    if v < 26 {
        ('A' as int + v) as char
    } else if v < 52 {
        ('a' as int + (v - 26)) as char
    } else if v < 62 {
        ('0' as int + (v - 52)) as char
    } else if v == 62 {
        '+'
    } else {
        '/'
    }
}

/// The standard Base64 encoding of `data` (RFC 4648, with `=` padding):
/// each group of three bytes becomes four characters of six bits each; a
/// last group of one or two bytes is filled with zero bits and padded with
/// `=` to four characters.
pub open spec fn base64_standard(data: Seq<u8>) -> Seq<char>
    decreases data.len(),
{
    if data.len() == 0 {
        Seq::empty()
    } else if data.len() == 1 {
        let b0 = data[0] as int;
        seq![base64_digit(b0 / 4), base64_digit((b0 % 4) * 16), '=', '=']
    } else if data.len() == 2 {
        let b0 = data[0] as int;
        let b1 = data[1] as int;
        seq![
            base64_digit(b0 / 4),
            base64_digit((b0 % 4) * 16 + b1 / 16),
            base64_digit((b1 % 16) * 4),
            '=',
        ]
    } else {
        let b0 = data[0] as int;
        let b1 = data[1] as int;
        let b2 = data[2] as int;
        seq![
            base64_digit(b0 / 4),
            base64_digit((b0 % 4) * 16 + b1 / 16),
            base64_digit((b1 % 16) * 4 + b2 / 64),
            base64_digit(b2 % 64),
        ] + base64_standard(data.skip(3))
    }
}

/// Whether the Base64 text of `n` bytes has a length that fits in a
/// `usize`, which the base64 crate checks before it encodes.
pub open spec fn base64_fits(n: int) -> bool {
    (n / 3) * 4 + 4 <= usize::MAX
}

/// Encodes bytes with the base64 crate's `general_purpose::STANDARD`
/// engine (`Engine::encode`), which writes the standard alphabet with `=`
/// padding. The contract claims that the result is that encoding of the
/// bytes; `encode` panics when the length of its output overflows a
/// `usize`, which `requires` leaves out.
#[verifier::external_body]
fn base64_encode(data: &[u8]) -> (s: String)
    requires
        base64_fits(data@.len() as int),
    ensures
        s@ == base64_standard(data@),
{
    base64::engine::general_purpose::STANDARD.encode(data)
}

/// The photo of a slip, encoded in Base64 for Gemini's `inlineData`.
pub fn encode_photo(photo: &[u8]) -> (s: String)
    requires
        base64_fits(photo@.len() as int),
    ensures
        s@ == base64_standard(photo@),
{
    base64_encode(photo)
}

/// The JSON object in a text: from its first `{` to its last `}`. Gemini
/// may answer with bare JSON, JSON in a code fence, or JSON in the middle
/// of a sentence. `None` when there is no `{`, no `}`, or the last `}`
/// comes before the first `{`; an answer cut off before its closing brace
/// has no `}` after its `{`.
pub open spec fn json_object_span(raw: Seq<char>) -> Option<Seq<char>> {
    let start = text::first_index(raw, '{');
    let end = text::last_index(raw, '}');
    if start < 0 || end < 0 || end < start {
        None
    } else {
        Some(raw.subrange(start, end + 1))
    }
}

/// Takes the JSON object out of Gemini's answer.
pub fn extract_json_object(raw: &str) -> (r: Option<String>)
    ensures
        match json_object_span(raw@) {
            Some(span) => r matches Some(t) && t@ == span,
            None => r is None,
        },
{
    let cs = chars_of(raw);
    let n = cs.len();
    let mut start: usize = 0;
    while start < n && cs[start] != '{'
        invariant
            n == raw@.len(),
            cs@ == raw@,
            start <= n,
            forall|j: int| 0 <= j < start ==> raw@[j] != '{',
        decreases n - start,
    {
        start = start + 1;
    }
    proof {
        text::lemma_first_index(raw@, '{', start as int);
    }
    if start == n {
        return None;
    }
    let mut end: usize = n;
    while end > 0 && cs[end - 1] != '}'
        invariant
            n == raw@.len(),
            cs@ == raw@,
            end <= n,
            forall|j: int| end <= j < n ==> raw@[j] != '}',
        decreases end,
    {
        end = end - 1;
    }
    proof {
        text::lemma_last_index(raw@, '}', end - 1);
    }
    if end == 0 || end - 1 < start {
        return None;
    }
    Some(raw.substring_char(start, end).to_owned())
}

/// The `finishReason` values with which Gemini reports an answer cut off at
/// the token limit: `MAX_TOKENS`, or `2` in its numeric form.
pub open spec fn is_truncation(reason: Seq<char>) -> bool {
    reason == "MAX_TOKENS"@ || reason == "2"@
}

/// Whether two texts are the same.
pub fn same_text(a: &str, b: &str) -> (r: bool)
    ensures
        r == (a@ == b@),
{
    let x = chars_of(a);
    let y = chars_of(b);
    if x.len() != y.len() {
        return false;
    }
    let mut i: usize = 0;
    while i < x.len()
        invariant
            x@ == a@,
            y@ == b@,
            x.len() == y.len(),
            i <= x.len(),
            forall|j: int| 0 <= j < i ==> a@[j] == b@[j],
        decreases x.len() - i,
    {
        if x[i] != y[i] {
            return false;
        }
        i = i + 1;
    }
    assert(a@ =~= b@);
    true
}

/// Whether Gemini's answer was cut off, by its `finishReason` (none counts
/// as not cut off).
pub fn is_truncated(reason: Option<&str>) -> (r: bool)
    ensures
        r == match reason {
            Some(t) => is_truncation(t@),
            None => false,
        },
{
    match reason {
        Some(t) => same_text(t, "MAX_TOKENS") || same_text(t, "2"),
        None => false,
    }
}

/// The text of the first part that has one; empty when none has.
pub open spec fn first_text(parts: Seq<Option<Seq<char>>>) -> Seq<char>
    decreases parts.len(),
{
    if parts.len() == 0 {
        Seq::empty()
    } else {
        match parts[0] {
            Some(t) => t,
            None => first_text(parts.drop_first()),
        }
    }
}

/// The view of an optional string.
pub open spec fn opt_view(o: Option<String>) -> Option<Seq<char>> {
    match o {
        Some(s) => Some(s@),
        None => None,
    }
}

/// The views of the optional texts of a candidate's parts.
pub open spec fn part_views(parts: Seq<Option<String>>) -> Seq<Option<Seq<char>>> {
    parts.map_values(|p: Option<String>| opt_view(p))
}

/// The text of the first part of Gemini's first candidate that has one.
pub fn first_part_text(parts: &Vec<Option<String>>) -> (t: String)
    ensures
        t@ == first_text(part_views(parts@)),
{
    let n = parts.len();
    let mut i: usize = 0;
    while i < n
        invariant
            n == parts@.len(),
            i <= n,
            forall|j: int| 0 <= j < i ==> parts@[j] is None,
        decreases n - i,
    {
        match &parts[i] {
            Some(t) => {
                proof {
                    lemma_first_text(part_views(parts@), i as int);
                }
                return t.clone();
            },
            None => {},
        }
        i = i + 1;
    }
    proof {
        lemma_first_text(part_views(parts@), n as int);
    }
    String::new()
}

/// The first text is the one at the first part that has a text.
pub proof fn lemma_first_text(parts: Seq<Option<Seq<char>>>, k: int)
    requires
        0 <= k <= parts.len(),
        forall|j: int| 0 <= j < k ==> parts[j] is None,
        k < parts.len() ==> parts[k] is Some,
    ensures
        first_text(parts) == if k < parts.len() {
            parts[k]->0
        } else {
            Seq::<char>::empty()
        },
    decreases k,
{
    if k > 0 {
        lemma_first_text(parts.drop_first(), k - 1);
    }
}

/// What serde_json finds under `key` in the JSON text `json`: the number
/// there, written as serde_json writes numbers, and the string there; `None`
/// when the text is not JSON.
pub uninterp spec fn json_field(json: Seq<char>, key: Seq<char>) -> Option<
    (Option<Seq<char>>, Option<Seq<char>>),
>;

/// Parses JSON text with `serde_json::from_str::<serde_json::Value>` and
/// reads `value[key]` with `as_number` (written with `Number`'s `Display`)
/// and with `as_str`. The contract claims only that the result is
/// `json_field` of the text and the key.
#[verifier::external_body]
fn read_json_field(json: &str, key: &str) -> (r: Option<(Option<String>, Option<String>)>)
    ensures
        match r {
            Some((a, n)) => json_field(json@, key@) == Some((opt_view(a), opt_view(n))),
            None => json_field(json@, key@) is None,
        },
{
    match serde_json::from_str::<serde_json::Value>(json) {
        Ok(v) => Some((v[key].as_number().map(|n| n.to_string()), v[key].as_str().map(|s| s.to_string()))),
        Err(_) => None,
    }
}

/// The key of the amount in the JSON object that the prompt asks for.
pub const AMOUNT_KEY: &'static str = "amount";

/// The key of the note in the JSON object that the prompt asks for.
pub const NOTE_KEY: &'static str = "note";

/// What was read from a slip: the amount in satang, when it could be read,
/// and the note that goes with it.
pub struct SlipInfo {
    pub amount: Option<i64>,
    pub raw_text: String,
}

/// The slip read from Gemini's text, given what was found in the JSON
/// object of the text (`None` when there was no object or it was not JSON).
/// The amount is the number under `"amount"` read as baht, in any form
/// that serde_json writes numbers in (`250`, `100.5`, `1e+16`); the note is the
/// string under `"note"`, or else the whole text trimmed.
pub open spec fn slip_of(
    text: Seq<char>,
    fields: Option<(Option<Seq<char>>, Option<Seq<char>>)>,
) -> (Option<i64>, Seq<char>) {
    match fields {
        Some((a, n)) => (
            match a {
                Some(num) => number::number_satang(num),
                None => None,
            },
            match n {
                Some(note) => note,
                None => text::trimmed(text),
            },
        ),
        None => (None, text::trimmed(text)),
    }
}

/// The slip read from Gemini's text and the fields found in its JSON
/// object.
pub fn slip_from_fields(text: &str, fields: Option<(Option<String>, Option<String>)>) -> (s:
    SlipInfo)
    ensures
        (s.amount, s.raw_text@) == slip_of(
            text@,
            match fields {
                Some((a, n)) => Some((opt_view(a), opt_view(n))),
                None => None,
            },
        ),
{
    match fields {
        Some((a, n)) => {
            let amount = match a {
                Some(num) => parse_number(num.as_str()),
                None => None,
            };
            let note = match n {
                Some(note) => note,
                None => trim(text).to_owned(),
            };
            SlipInfo { amount, raw_text: note }
        },
        None => SlipInfo { amount: None, raw_text: trim(text).to_owned() },
    }
}

/// The JSON fields of Gemini's text: when the text has a JSON object that
/// parses, the number under `"amount"` and the string under `"note"`.
pub open spec fn fields_of_text(text: Seq<char>) -> Option<(Option<Seq<char>>, Option<Seq<char>>)> {
    match json_object_span(text) {
        Some(span) => match json_field(span, AMOUNT_KEY@) {
            Some((num, _)) => Some(
                (
                    num,
                    match json_field(span, NOTE_KEY@) {
                        Some((_, note)) => note,
                        None => None,
                    },
                ),
            ),
            None => None,
        },
        None => None,
    }
}

/// Reads the slip from Gemini's text: takes out its JSON object and reads
/// the amount and note from it.
pub fn read_slip_text(text: &str) -> (s: SlipInfo)
    ensures
        (s.amount, s.raw_text@) == slip_of(text@, fields_of_text(text@)),
{
    let fields = match extract_json_object(text) {
        Some(json) => match read_json_field(json.as_str(), AMOUNT_KEY) {
            Some((num, _)) => {
                let note = match read_json_field(json.as_str(), NOTE_KEY) {
                    Some((_, note)) => note,
                    None => None,
                };
                Some((num, note))
            },
            None => None,
        },
        None => None,
    };
    slip_from_fields(text, fields)
}

/// The slip read from a candidate of Gemini's answer, given its
/// `finishReason` and the texts of its parts: an answer cut off at the
/// token limit reads as no amount, with a note that says so; otherwise the
/// slip is read from the text of the first part that has one.
pub open spec fn answer_slip(
    finish_reason: Option<Seq<char>>,
    parts: Seq<Option<Seq<char>>>,
) -> (Option<i64>, Seq<char>) {
    match finish_reason {
        Some(r) if is_truncation(r) => (None, TRUNCATED_SLIP@),
        _ => slip_of(first_text(parts), fields_of_text(first_text(parts))),
    }
}

/// Reads the slip from a candidate of Gemini's answer: its `finishReason`
/// and the texts of its parts.
pub fn slip_from_answer(finish_reason: Option<&str>, parts: &Vec<Option<String>>) -> (s:
    SlipInfo)
    ensures
        (s.amount, s.raw_text@) == answer_slip(
            match finish_reason {
                Some(r) => Some(r@),
                None => None,
            },
            part_views(parts@),
        ),
{
    if is_truncated(finish_reason) {
        return SlipInfo { amount: None, raw_text: TRUNCATED_SLIP.to_owned() };
    }
    let text = first_part_text(parts);
    read_slip_text(text.as_str())
}

/// A candidate of Gemini's answer: its `finishReason`, and the text of each
/// of its parts (a part may have none).
pub struct Candidate {
    pub finish_reason: Option<String>,
    pub parts: Vec<Option<String>>,
}

/// The slip read from Gemini's candidates: from the first one, or, when
/// there is none, from an empty answer.
pub open spec fn candidates_slip(candidates: Seq<Candidate>) -> (Option<i64>, Seq<char>) {
    if candidates.len() == 0 {
        answer_slip(None, Seq::empty())
    } else {
        answer_slip(opt_view(candidates[0].finish_reason), part_views(candidates[0].parts@))
    }
}

/// Reads the slip from the candidates of Gemini's answer.
pub fn slip_from_candidates(candidates: &Vec<Candidate>) -> (s: SlipInfo)
    ensures
        (s.amount, s.raw_text@) == candidates_slip(candidates@),
{
    if candidates.len() == 0 {
        let none: Vec<Option<String>> = Vec::new();
        assert(part_views(none@) =~= Seq::<Option<Seq<char>>>::empty());
        return slip_from_answer(None, &none);
    }
    let c = &candidates[0];
    match &c.finish_reason {
        Some(r) => slip_from_answer(Some(r.as_str()), &c.parts),
        None => slip_from_answer(None, &c.parts),
    }
}

/// Gemini's `generateContent` endpoint for the model that reads slips,
/// without the key.
pub const GEMINI_ENDPOINT: &'static str = "https://generativelanguage.googleapis.com/v1beta/models/gemini-2.0-flash:generateContent?key=";

/// The prompt sent with the photo of a slip.
pub const SLIP_PROMPT: &'static str = "Read the transfer amount from this Thai bank slip.\nReply with ONLY a raw JSON object, no markdown, no explanation:\n{\"amount\": 100.00, \"note\": \"100 THB\"}\nIf unreadable: {\"amount\": null, \"note\": \"unreadable\"}";

/// The URL of Gemini's endpoint with the API key.
pub fn gemini_url(key: &str) -> (u: String)
    ensures
        u@ == GEMINI_ENDPOINT@ + key@,
{
    let mut u = GEMINI_ENDPOINT.to_owned();
    u.append(key);
    u
}


/// An answer cut off before its object closes is no object: when no `}`
/// comes after the first `{`, nothing is taken out.
pub proof fn law_truncated_object_refused(before: Seq<char>, cut: Seq<char>)
    requires
        forall|i: int| 0 <= i < before.len() ==> before[i] != '{',
        cut.len() > 0,
        cut[0] == '{',
        forall|i: int| 0 <= i < cut.len() ==> cut[i] != '}',
    ensures
        json_object_span(before + cut) is None,
{
    let raw = before + cut;
    let start = before.len() as int;
    assert forall|j: int| 0 <= j < start implies raw[j] != '{' by {
        assert(raw[j] == before[j]);
    }
    assert(raw[start] == cut[0]);
    text::lemma_first_index(raw, '{', start);
    let end = text::last_index(raw, '}');
    if end >= start {
        assert(raw[end] == cut[end - start]);
    }
}

/// A JSON object wrapped in other text (a code fence, a sentence) is taken
/// out whole, when no `{` comes before it and no `}` after it.
pub proof fn law_object_taken_from_surroundings(
    before: Seq<char>,
    object: Seq<char>,
    after: Seq<char>,
)
    requires
        object.len() >= 2,
        object[0] == '{',
        object.last() == '}',
        forall|i: int| 0 <= i < before.len() ==> before[i] != '{',
        forall|i: int| 0 <= i < after.len() ==> after[i] != '}',
    ensures
        json_object_span(before + object + after) == Some(object),
{
    let t = before + object + after;
    let a = before.len() as int;
    let b = a + object.len() - 1;
    assert forall|j: int| 0 <= j < a implies t[j] != '{' by {
        assert(t[j] == before[j]);
    }
    assert(t[a] == object[0]);
    text::lemma_first_index(t, '{', a);
    assert forall|j: int| b < j < t.len() implies t[j] != '}' by {
        assert(t[j] == after[j - b - 1]);
    }
    assert(t[b] == object.last());
    text::lemma_last_index(t, '}', b);
    assert(t.subrange(a, b + 1) =~= object);
}

} // verus!
