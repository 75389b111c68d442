//! Amounts of money. An amount is an integer number of satang (hundredths
//! of a baht); this module writes amounts as baht and reads them back.
use vstd::prelude::*;
use vstd::string::*;
use crate::text::{self, magnitude, push_decimal, push_two_digits, chars_of};

verus! {

/// The absolute value of an integer.
pub open spec fn abs(v: int) -> nat {
    if v < 0 {
        (-v) as nat
    } else {
        v as nat
    }
}

/// The sign written in front of a negative amount.
pub open spec fn sign(v: int) -> Seq<char> {
    if v < 0 {
        seq!['-']
    } else {
        Seq::empty()
    }
}

/// An amount written as baht with two decimals, the way `{:.2}` writes it:
/// `-12.05`, `0.50`, `1500.00`.
pub open spec fn baht_2dp(v: int) -> Seq<char> {
    sign(v) + text::decimal(abs(v) / 100) + seq!['.'] + text::two_digits(abs(v) % 100)
}

/// Whole baht in `m` satang, rounded to the nearest baht; half a baht goes
/// to the even neighbour.
pub open spec fn round_half_even(m: nat) -> nat {
    let q = m / 100;
    let r = m % 100;
    if r > 50 || (r == 50 && q % 2 == 1) {
        q + 1
    } else {
        q
    }
}

/// An amount written as whole baht, the way `{:.0}` writes it: `60`, `-3`.
pub open spec fn baht_whole(v: int) -> Seq<char> {
    sign(v) + text::decimal(round_half_even(abs(v)))
}

/// Appends an amount written with two decimals to `out`.
pub fn push_baht(out: &mut String, v: i128)
    ensures
        final(out)@ == old(out)@ + baht_2dp(v as int),
{
    let m = magnitude(v);
    if v < 0 {
        out.append("-");
        proof {
            reveal_strlit("-");
        }
    }
    push_decimal(out, m / 100);
    out.append(".");
    proof {
        reveal_strlit(".");
    }
    push_two_digits(out, (m % 100) as u32);
    assert(out@ =~= old(out)@ + baht_2dp(v as int));
}

/// Appends an amount written as whole baht to `out`.
pub fn push_baht_whole(out: &mut String, v: i128)
    ensures
        final(out)@ == old(out)@ + baht_whole(v as int),
{
    let m = magnitude(v);
    if v < 0 {
        out.append("-");
        proof {
            reveal_strlit("-");
        }
    }
    let q = m / 100;
    let r = m % 100;
    let w = if r > 50 || (r == 50 && q % 2 == 1) {
        q + 1
    } else {
        q
    };
    push_decimal(out, w);
    assert(out@ =~= old(out)@ + baht_whole(v as int));
}

/// An amount written with two decimals.
pub fn format_baht(v: i128) -> (s: String)
    ensures
        s@ == baht_2dp(v as int),
{
    let mut s = String::new();
    push_baht(&mut s, v);
    s
}

/// An amount written as whole baht.
pub fn format_baht_whole(v: i128) -> (s: String)
    ensures
        s@ == baht_whole(v as int),
{
    let mut s = String::new();
    push_baht_whole(&mut s, v);
    s
}

/// Whether every character of `s` is an ASCII digit.
pub open spec fn all_digits(s: Seq<char>) -> bool {
    forall|i: int| 0 <= i < s.len() ==> text::is_digit(#[trigger] s[i])
}

/// The number that a string of decimal digits stands for.
pub open spec fn digits_value(s: Seq<char>) -> nat
    decreases s.len(),
{
    if s.len() == 0 {
        0
    } else {
        digits_value(s.drop_last()) * 10 + text::digit_value(s.last())
    }
}

/// Satang in the decimal places `f` (at least one digit): the first two
/// places are kept, and the third rounds the second up when it is 5 or more.
pub open spec fn fraction_satang(f: Seq<char>) -> nat {
    text::digit_value(f[0]) * 10 + (if f.len() > 1 {
        text::digit_value(f[1])
    } else {
        0
    }) + (if f.len() > 2 && text::digit_value(f[2]) >= 5 {
        1nat
    } else {
        0nat
    })
}

/// The satang in an unsigned decimal number, `I` or `I.F`, where `I` and `F`
/// are non-empty runs of ASCII digits; `None` for any other text.
pub open spec fn unsigned_satang(s: Seq<char>) -> Option<nat> {
    let d = text::first_index(s, '.');
    if d < 0 {
        if s.len() > 0 && all_digits(s) {
            Some(digits_value(s) * 100)
        } else {
            None
        }
    } else {
        let ip = s.take(d);
        let fp = s.skip(d + 1);
        if ip.len() > 0 && all_digits(ip) && fp.len() > 0 && all_digits(fp) {
            Some(digits_value(ip) * 100 + fraction_satang(fp))
        } else {
            None
        }
    }
}

/// The satang in a decimal number with an optional leading `-`.
pub open spec fn decimal_satang(s: Seq<char>) -> Option<int> {
    if s.len() > 0 && s[0] == '-' {
        match unsigned_satang(s.drop_first()) {
            Some(m) => Some(-m),
            None => None,
        }
    } else {
        match unsigned_satang(s) {
            Some(m) => Some(m as int),
            None => None,
        }
    }
}

/// What `parse_decimal` returns: the satang when the text is a decimal
/// number whose satang fit in an `i64`.
pub open spec fn parsed_decimal(s: Seq<char>) -> Option<i64> {
    match decimal_satang(s) {
        Some(v) => if i64::MIN <= v <= i64::MAX {
            Some(v as i64)
        } else {
            None
        },
        None => None,
    }
}

/// A longer run of digits is worth at least as much as its prefix.
pub proof fn lemma_digits_value_prefix(s: Seq<char>, k: int)
    requires
        0 <= k <= s.len(),
    ensures
        digits_value(s.take(k)) <= digits_value(s),
    decreases s.len() - k,
{
    if k < s.len() {
        lemma_digits_value_prefix(s, k + 1);
        assert(s.take(k + 1).drop_last() =~= s.take(k));
    } else {
        assert(s.take(k) =~= s);
    }
}

/// Whether the characters `cs[from..to]` are all ASCII digits.
fn digits_only(cs: &Vec<char>, from: usize, to: usize) -> (b: bool)
    requires
        from <= to <= cs@.len(),
    ensures
        b == all_digits(cs@.subrange(from as int, to as int)),
{
    let mut i = from;
    while i < to
        invariant
            from <= i <= to <= cs@.len(),
            forall|j: int| from <= j < i ==> text::is_digit(cs@[j]),
        decreases to - i,
    {
        if !('0' <= cs[i] && cs[i] <= '9') {
            assert(!text::is_digit(cs@.subrange(from as int, to as int)[i - from]));
            return false;
        }
        i = i + 1;
    }
    assert forall|j: int| 0 <= j < to - from implies text::is_digit(
        #[trigger] cs@.subrange(from as int, to as int)[j],
    ) by {
        assert(cs@.subrange(from as int, to as int)[j] == cs@[from + j]);
    }
    true
}

/// The value of the digits `cs[from..to]` when it is at most 10^17; `None`
/// when it is larger.
fn digits_up_to(cs: &Vec<char>, from: usize, to: usize) -> (r: Option<u64>)
    requires
        from <= to <= cs@.len(),
        all_digits(cs@.subrange(from as int, to as int)),
    ensures
        match r {
            Some(v) => v == digits_value(cs@.subrange(from as int, to as int)) && v
                <= 100_000_000_000_000_000,
            None => digits_value(cs@.subrange(from as int, to as int)) > 100_000_000_000_000_000,
        },
{
    let ghost s = cs@.subrange(from as int, to as int);
    let mut v: u64 = 0;
    let mut i = from;
    while i < to
        invariant
            from <= i <= to <= cs@.len(),
            s == cs@.subrange(from as int, to as int),
            all_digits(s),
            v == digits_value(s.take(i - from)),
            v <= 100_000_000_000_000_000,
        decreases to - i,
    {
        let c = cs[i];
        assert(c == s[i - from]);
        assert(text::is_digit(s[i - from]));
        let d = (c as u32 - 48) as u64;
        assert(s.take(i + 1 - from).drop_last() =~= s.take(i - from));
        v = v * 10 + d;
        i = i + 1;
        if v > 100_000_000_000_000_000 {
            proof {
                lemma_digits_value_prefix(s, i - from);
            }
            return None;
        }
    }
    assert(s.take(to - from) =~= s);
    Some(v)
}

/// The index of the first `c` in `cs[from..]`, or `cs.len()` when there is
/// none.
fn scan_for(cs: &Vec<char>, from: usize, c: char) -> (k: usize)
    requires
        from <= cs@.len(),
    ensures
        from <= k <= cs@.len(),
        k < cs@.len() ==> cs@[k as int] == c,
        forall|j: int| from <= j < k ==> cs@[j] != c,
{
    let mut k = from;
    while k < cs.len() && cs[k] != c
        invariant
            from <= k <= cs@.len(),
            forall|j: int| from <= j < k ==> cs@[j] != c,
        decreases cs@.len() - k,
    {
        k = k + 1;
    }
    k
}

/// Reads the satang of the unsigned decimal number `cs[from..]`.
fn unsigned_from(cs: &Vec<char>, from: usize) -> (r: Option<u128>)
    requires
        from <= cs@.len(),
    ensures
        match unsigned_satang(cs@.subrange(from as int, cs@.len() as int)) {
            Some(m) => if m <= i64::MAX + 1 {
                r == Some(m as u128)
            } else {
                r is None
            },
            None => r is None,
        },
{
    let ghost s = cs@.subrange(from as int, cs@.len() as int);
    let n = cs.len();
    let d = scan_for(cs, from, '.');
    proof {
        text::lemma_first_index(s, '.', d - from);
        assert forall|j: int| 0 <= j < d - from implies s[j] != '.' by {
            assert(s[j] == cs@[from + j]);
        }
    }
    if d == n {
        assert(text::first_index(s, '.') == -1);
        assert(s =~= cs@.subrange(from as int, n as int));
        if d == from || !digits_only(cs, from, n) {
            return None;
        }
        match digits_up_to(cs, from, n) {
            None => None,
            Some(v) => {
                let m = (v as u128) * 100;
                if m > (i64::MAX as u128) + 1 {
                    None
                } else {
                    Some(m)
                }
            },
        }
    } else {
        assert(s.take(d - from) =~= cs@.subrange(from as int, d as int));
        assert(s.skip(d - from + 1) =~= cs@.subrange(d + 1, n as int));
        if d == from || d + 1 == n || !digits_only(cs, from, d) || !digits_only(cs, d + 1, n) {
            return None;
        }
        let ghost fp = cs@.subrange(d + 1, n as int);
        assert(text::is_digit(fp[0]));
        let f0 = (cs[d + 1] as u32 - 48) as u128;
        let f1 = if n - d > 2 {
            assert(text::is_digit(fp[1]));
            (cs[d + 2] as u32 - 48) as u128
        } else {
            0
        };
        let up = if n - d > 3 {
            assert(text::is_digit(fp[2]));
            if (cs[d + 3] as u32 - 48) >= 5 {
                1
            } else {
                0
            }
        } else {
            0
        };
        match digits_up_to(cs, from, d) {
            None => None,
            Some(v) => {
                let m = (v as u128) * 100 + f0 * 10 + f1 + up;
                if m > (i64::MAX as u128) + 1 {
                    None
                } else {
                    Some(m)
                }
            },
        }
    }
}

/// Reads a decimal number of baht, with an optional leading `-` and any
/// number of decimal places, as satang: `65.50` is 6550 and `-3` is
/// -300. Decimal places after the second round the amount to the nearest
/// satang by the third place. `None` when the text is no such number, or
/// its satang do not fit in an `i64`.
pub fn parse_decimal(s: &str) -> (r: Option<i64>)
    ensures
        r == parsed_decimal(s@),
{
    let cs = chars_of(s);
    let n = cs.len();
    if n > 0 && cs[0] == '-' {
        assert(s@.drop_first() =~= cs@.subrange(1, n as int));
        match unsigned_from(&cs, 1) {
            None => None,
            Some(m) => {
                if m > (i64::MAX as u128) + 1 {
                    None
                } else if m == (i64::MAX as u128) + 1 {
                    Some(i64::MIN)
                } else {
                    Some(-(m as i64))
                }
            },
        }
    } else {
        assert(s@ =~= cs@.subrange(0, n as int));
        match unsigned_from(&cs, 0) {
            None => None,
            Some(m) => {
                if m > i64::MAX as u128 {
                    None
                } else {
                    Some(m as i64)
                }
            },
        }
    }
}


/// The digits of a number are ASCII digits and stand for the number.
pub proof fn lemma_decimal_digits(n: nat)
    ensures
        all_digits(text::decimal(n)),
        digits_value(text::decimal(n)) == n,
        text::decimal(n).len() > 0,
    decreases n,
{
    if n >= 10 {
        lemma_decimal_digits(n / 10);
        let d = text::decimal(n);
        assert(d.drop_last() == text::decimal(n / 10));
        assert(text::digit_value(d.last()) == n % 10);
        assert(digits_value(d) == (n / 10) * 10 + n % 10);
        assert forall|i: int| 0 <= i < d.len() implies text::is_digit(#[trigger] d[i]) by {
            if i < d.len() - 1 {
                assert(d[i] == text::decimal(n / 10)[i]);
            }
        }
    } else {
        let d = text::decimal(n);
        assert(d.drop_last() =~= Seq::<char>::empty());
        assert(digits_value(d.drop_last()) == 0);
        assert(text::digit_value(d.last()) == n);
    }
}

/// Two digits written for a number under a hundred stand for it.
pub proof fn lemma_two_digits(r: nat)
    requires
        r < 100,
    ensures
        all_digits(text::two_digits(r)),
        text::two_digits(r).len() == 2,
        text::digit_value(text::two_digits(r)[0]) * 10 + text::digit_value(text::two_digits(r)[1])
            == r,
{
    text::lemma_decimal_len_small(r);
    if r < 10 {
        assert(text::two_digits(r) =~= seq!['0', text::digit_char(r)]);
    } else {
        assert(text::two_digits(r) =~= seq![text::digit_char(r / 10), text::digit_char(r % 10)]);
    }
}

/// An amount written with two decimals reads back as the same amount.
pub proof fn law_baht_read_back(v: i64)
    ensures
        parsed_decimal(baht_2dp(v as int)) == Some(v),
{
    let m = abs(v as int);
    let q = m / 100;
    let r = m % 100;
    lemma_decimal_digits(q);
    lemma_two_digits(r);
    let body = text::decimal(q) + seq!['.'] + text::two_digits(r);
    let k = text::decimal(q).len() as int;
    assert forall|j: int| 0 <= j < k implies body[j] != '.' by {
        assert(body[j] == text::decimal(q)[j]);
        assert(text::is_digit(text::decimal(q)[j]));
    }
    text::lemma_first_index(body, '.', k);
    assert(body.take(k) =~= text::decimal(q));
    assert(body.skip(k + 1) =~= text::two_digits(r));
    assert(unsigned_satang(body) == Some(m));
    assert(body[0] != '-') by {
        assert(body[0] == text::decimal(q)[0]);
        assert(text::is_digit(text::decimal(q)[0]));
    }
    if v < 0 {
        assert(baht_2dp(v as int) =~= seq!['-'] + body);
        assert((seq!['-'] + body).drop_first() =~= body);
    } else {
        assert(baht_2dp(v as int) =~= body);
    }
}

} // verus!
