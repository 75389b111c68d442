//! Reading an expense from a chat message: `item amount`, such as
//! `rice 60`, `coffee 65.50` or `household supplies 320`.
use vstd::prelude::*;
use vstd::string::*;
use crate::money::{self, parse_decimal};
use crate::text::{self, chars_of, trim, white_space};

verus! {

/// Expenses must be under a million baht (in satang).
pub const EXPENSE_LIMIT: i64 = 100_000_000;

/// The index of the last white-space character of `s`, or -1 when there is
/// none.
pub open spec fn last_white_index(s: Seq<char>) -> int {
    if exists|i: int|
        0 <= i < s.len() && text::is_white_space(s[i]) && forall|j: int|
            i < j < s.len() ==> !text::is_white_space(s[j]) {
        choose|i: int|
            0 <= i < s.len() && text::is_white_space(s[i]) && forall|j: int|
                i < j < s.len() ==> !text::is_white_space(s[j])
    } else {
        -1
    }
}

/// The expense that a message stands for. The message, trimmed, splits at
/// its last white space into an item name (trimmed again; it may hold
/// several words) and an amount, a decimal number of baht as
/// `money::parsed_decimal` reads it. The amount must be above zero and
/// under a million baht. Any other message is no expense.
pub open spec fn expense_of(message: Seq<char>) -> Option<(Seq<char>, i64)> {
    let t = text::trimmed(message);
    let k = last_white_index(t);
    if k < 0 {
        None
    } else {
        let item = text::trimmed(t.take(k));
        match money::parsed_decimal(t.skip(k + 1)) {
            Some(v) => if 0 < v < EXPENSE_LIMIT && item.len() > 0 {
                Some((item, v))
            } else {
                None
            },
            None => None,
        }
    }
}

/// The index of the last white-space character, as `last_white_index`
/// describes it.
pub proof fn lemma_last_white_index(s: Seq<char>, k: int)
    requires
        -1 <= k < s.len(),
        k >= 0 ==> text::is_white_space(s[k]),
        forall|j: int| k < j < s.len() ==> !text::is_white_space(s[j]),
    ensures
        last_white_index(s) == k,
{
    if k >= 0 {
        assert(exists|i: int|
            0 <= i < s.len() && text::is_white_space(s[i]) && forall|j: int|
                i < j < s.len() ==> !text::is_white_space(s[j]));
        let i = last_white_index(s);
        if i < k {
            assert(!text::is_white_space(s[k]));
        }
        if k < i {
            assert(!text::is_white_space(s[i]));
        }
    }
}

/// Reads an expense from a chat message: the item name and the amount in
/// satang. `None` for a message that is no expense, which the bot ignores.
pub fn parse_expense(message: &str) -> (r: Option<(String, i64)>)
    ensures
        match expense_of(message@) {
            Some((item, v)) => r matches Some((ri, rv)) && ri@ == item && rv == v,
            None => r is None,
        },
{
    let t = trim(message);
    let cs = chars_of(t);
    let n = cs.len();
    let mut k = n;
    while k > 0 && !white_space(cs[k - 1])
        invariant
            k <= n,
            n == t@.len(),
            cs@ == t@,
            forall|j: int| k <= j < n ==> !text::is_white_space(t@[j]),
        decreases k,
    {
        k = k - 1;
    }
    if k == 0 {
        proof {
            lemma_last_white_index(t@, -1);
        }
        return None;
    }
    let w = k - 1;
    proof {
        lemma_last_white_index(t@, w as int);
    }
    let item = trim(t.substring_char(0, w));
    let amount = parse_decimal(t.substring_char(k, n));
    match amount {
        Some(v) => {
            if 0 < v && v < EXPENSE_LIMIT && item.unicode_len() > 0 {
                Some((item.to_owned(), v))
            } else {
                None
            }
        },
        None => None,
    }
}


/// A text trims to itself when it starts and ends with a character that
/// is not white space.
pub proof fn lemma_trimmed_unchanged(s: Seq<char>)
    requires
        s.len() > 0,
        !text::is_white_space(s[0]),
        !text::is_white_space(s.last()),
    ensures
        text::trimmed(s) == s,
{
    assert(text::trim_start_index(s) == 0);
    assert(text::trim_end_index(s) == s.len());
    assert(s.subrange(0, s.len() as int) =~= s);
}

/// A message written as an item name, a space and the amount with two
/// decimals reads back as that item and amount, for an item name that
/// neither starts nor ends with white space and an amount above zero and
/// under a million baht.
pub proof fn law_expense_read_back(item: Seq<char>, v: i64)
    requires
        item.len() > 0,
        !text::is_white_space(item[0]),
        !text::is_white_space(item.last()),
        0 < v < EXPENSE_LIMIT,
    ensures
        expense_of(item + seq![' '] + money::baht_2dp(v as int)) == Some((item, v)),
{
    let amt = money::baht_2dp(v as int);
    let q = (v as int) / 100;
    let r = (v as int) % 100;
    money::lemma_decimal_digits(q as nat);
    money::lemma_two_digits(r as nat);
    assert(amt =~= text::decimal(q as nat) + seq!['.'] + text::two_digits(r as nat));
    assert forall|j: int| 0 <= j < amt.len() implies !text::is_white_space(#[trigger] amt[j]) by {
        let d = text::decimal(q as nat);
        if j < d.len() {
            assert(amt[j] == d[j]);
            assert(text::is_digit(d[j]));
        } else if j > d.len() {
            assert(amt[j] == text::two_digits(r as nat)[j - d.len() - 1]);
            assert(text::is_digit(text::two_digits(r as nat)[j - d.len() - 1]));
        }
    }
    let m = item + seq![' '] + amt;
    let k = item.len() as int;
    assert(m[0] == item[0]);
    assert(m.last() == amt.last());
    lemma_trimmed_unchanged(m);
    lemma_trimmed_unchanged(item);
    assert forall|j: int| k < j < m.len() implies !text::is_white_space(m[j]) by {
        assert(m[j] == amt[j - k - 1]);
    }
    assert(text::is_white_space(m[k]));
    lemma_last_white_index(m, k);
    assert(m.take(k) =~= item);
    assert(m.skip(k + 1) =~= amt);
    money::law_baht_read_back(v);
}

} // verus!
