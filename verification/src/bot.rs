//! The bot's decisions about incoming messages: which chat it serves, who
//! sent a message, and what a text message asks for.
use vstd::prelude::*;
use vstd::string::*;
use crate::money;
use crate::parser::{self, parse_expense};
use crate::text::{self, chars_of};

verus! {

/// The bot's commands, as the chat sends them (`/paid 500`, `/cancel 42`).
pub enum Command {
    /// Shows the commands.
    Help,
    /// Shows the pending expenses and what is due.
    Summary,
    /// Shows today's expenses.
    Today,
    /// Shows the latest pending expenses.
    History,
    /// Records a transfer of the given satang.
    Paid(i64),
    /// Cancels the pending expense with the given id.
    Cancel(i64),
    /// Clears all pending expenses.
    Clear,
}

/// The chat id in a setting, read the way `str::parse::<i64>` reads it: an
/// optional `+` or `-` and at least one ASCII digit, and a value that fits
/// in an `i64`.
pub open spec fn chat_id_of(s: Seq<char>) -> Option<i64> {
    let neg = s.len() > 0 && s[0] == '-';
    let body = if s.len() > 0 && (s[0] == '-' || s[0] == '+') {
        s.drop_first()
    } else {
        s
    };
    if body.len() > 0 && money::all_digits(body) {
        let v = if neg {
            -money::digits_value(body)
        } else {
            money::digits_value(body) as int
        };
        if i64::MIN <= v <= i64::MAX {
            Some(v as i64)
        } else {
            None
        }
    } else {
        None
    }
}

/// Reads the chat id that the bot is locked to from its setting.
pub fn parse_chat_id(setting: &str) -> (r: Option<i64>)
    ensures
        r == chat_id_of(setting@),
{
    let cs = chars_of(setting);
    let n = cs.len();
    let neg = n > 0 && cs[0] == '-';
    let from: usize = if n > 0 && (cs[0] == '-' || cs[0] == '+') {
        1
    } else {
        0
    };
    let ghost body = setting@.subrange(from as int, n as int);
    assert(body =~= if n > 0 && (setting@[0] == '-' || setting@[0] == '+') {
        setting@.drop_first()
    } else {
        setting@
    });
    if from == n {
        return None;
    }
    let mut v: u128 = 0;
    let mut i = from;
    while i < n
        invariant
            from <= i <= n,
            n == setting@.len(),
            cs@ == setting@,
            body == setting@.subrange(from as int, n as int),
            body == (if n > 0 && (setting@[0] == '-' || setting@[0] == '+') {
                setting@.drop_first()
            } else {
                setting@
            }),
            neg == (n > 0 && setting@[0] == '-'),
            money::all_digits(body.take(i - from)),
            v == money::digits_value(body.take(i - from)),
            v <= 10_000_000_000_000_000_000,
        decreases n - i,
    {
        let c = cs[i];
        if !('0' <= c && c <= '9') {
            assert(!text::is_digit(body[i - from]));
            assert(!money::all_digits(body));
            return None;
        }
        assert(body.take(i + 1 - from).drop_last() =~= body.take(i - from));
        assert(body.take(i + 1 - from).last() == c);
        let ghost old_v = v;
        v = v * 10 + (c as u32 - 48) as u128;
        i = i + 1;
        assert(v == money::digits_value(body.take(i - from))) by {
            assert(money::digits_value(body.take(i - from)) == money::digits_value(
                body.take(i - from).drop_last(),
            ) * 10 + text::digit_value(body.take(i - from).last()));
        }
        assert(money::all_digits(body.take(i - from))) by {
            assert forall|j: int| 0 <= j < i - from implies text::is_digit(
                #[trigger] body.take(i - from)[j],
            ) by {
                if j < i - 1 - from {
                    assert(body.take(i - from)[j] == body.take(i - 1 - from)[j]);
                }
            }
        }
        if v > 10_000_000_000_000_000_000 {
            proof {
                money::lemma_digits_value_prefix(body, i - from);
            }
            assert(chat_id_of(setting@) is None);
            return None;
        }
    }
    assert(body.take(n - from) =~= body);
    if neg {
        if v > 0x8000_0000_0000_0000 {
            None
        } else if v == 0x8000_0000_0000_0000 {
            Some(i64::MIN)
        } else {
            Some(-(v as i64))
        }
    } else {
        if v > 0x7fff_ffff_ffff_ffff {
            None
        } else {
            Some(v as i64)
        }
    }
}

/// Whether the bot answers a chat: any chat when it is not locked to one,
/// otherwise only that chat.
pub open spec fn serves(allowed: Option<i64>, chat: i64) -> bool {
    match allowed {
        Some(a) => a == chat,
        None => true,
    }
}

/// Whether the bot answers the chat `chat`.
pub fn chat_allowed(allowed: Option<i64>, chat: i64) -> (b: bool)
    ensures
        b == serves(allowed, chat),
{
    match allowed {
        Some(a) => a == chat,
        None => true,
    }
}

pub const UNKNOWN_SENDER: &'static str = "unknown";

/// The name that an expense is recorded under: the sender's username, or
/// else their first name, or else `unknown` when the message has no sender.
pub fn sender_name(username: Option<String>, first_name: Option<String>) -> (name: String)
    ensures
        name@ == match username {
            Some(u) => u@,
            None => match first_name {
                Some(f) => f@,
                None => UNKNOWN_SENDER@,
            },
        },
{
    match username {
        Some(u) => u,
        None => match first_name {
            Some(f) => f,
            None => UNKNOWN_SENDER.to_owned(),
        },
    }
}

/// What a text message asks of the bot.
pub enum TextAction {
    /// Nothing: the chat is not served, the text is a command, or it is no
    /// expense.
    Ignore,
    /// Recording an expense: the item and the amount in satang.
    Record(String, i64),
}

/// What the bot does with a text message in chat `chat`: it ignores chats
/// it does not serve and texts that start with `/`, and records the expense
/// that any other text stands for.
pub open spec fn text_action_of(allowed: Option<i64>, chat: i64, message: Seq<char>) -> Option<
    (Seq<char>, i64),
> {
    if !serves(allowed, chat) || (message.len() > 0 && message[0] == '/') {
        None
    } else {
        parser::expense_of(message)
    }
}

/// Decides what to do with a text message.
pub fn text_action(allowed: Option<i64>, chat: i64, message: &str) -> (a: TextAction)
    ensures
        match text_action_of(allowed, chat, message@) {
            Some((item, v)) => a matches TextAction::Record(i, w) && i@ == item && w == v,
            None => a is Ignore,
        },
{
    if !chat_allowed(allowed, chat) {
        return TextAction::Ignore;
    }
    if message.unicode_len() > 0 && message.get_char(0) == '/' {
        return TextAction::Ignore;
    }
    match parse_expense(message) {
        Some((item, v)) => TextAction::Record(item, v),
        None => TextAction::Ignore,
    }
}


/// A chat id written out reads back as the same id.
pub proof fn law_chat_id_read_back(v: i64)
    ensures
        chat_id_of(text::signed_decimal(v as int)) == Some(v),
{
    let m = money::abs(v as int);
    money::lemma_decimal_digits(m);
    let d = text::decimal(m);
    assert(d[0] != '-' && d[0] != '+') by {
        assert(text::is_digit(d[0]));
    }
    if v < 0 {
        assert(text::signed_decimal(v as int) =~= seq!['-'] + d);
        assert((seq!['-'] + d).drop_first() =~= d);
    }
}

/// Different chat ids are written differently.
pub proof fn lemma_chat_ids_distinct(a: i64, b: i64)
    requires
        text::signed_decimal(a as int) == text::signed_decimal(b as int),
    ensures
        a == b,
{
    law_chat_id_read_back(a);
    law_chat_id_read_back(b);
}

} // verus!
