//! Numbers as JSON writes them, read as satang: `-?I(.F)?([eE][+-]?X)?`,
//! where `I`, `F` and `X` are runs of ASCII digits. serde_json writes a
//! float such as 1e16 as `1e+16`, and 0.00000015 as `1.5e-7`.
use vstd::prelude::*;
use vstd::arithmetic::power::pow;
use crate::money::{all_digits, digits_value, lemma_digits_value_prefix};
use crate::text::{self, chars_of};

verus! {

/// The end of the run of ASCII digits of `s` that starts at `from`.
pub open spec fn digit_run_end(s: Seq<char>, from: int) -> int
    decreases s.len() - from,
{
    if 0 <= from < s.len() && text::is_digit(s[from]) {
        digit_run_end(s, from + 1)
    } else {
        from
    }
}

/// The parts of a number `-?I(.F)?([eE][+-]?X)?`: whether it is negative,
/// the digits `I` and `F`, and the exponent; `None` for any other text.
pub open spec fn number_parts(s: Seq<char>) -> Option<(bool, Seq<char>, Seq<char>, int)> {
    let neg = s.len() > 0 && s[0] == '-';
    let a: int = if neg {
        1
    } else {
        0
    };
    let b = digit_run_end(s, a);
    let point = b < s.len() && s[b] == '.';
    let c = if point {
        digit_run_end(s, b + 1)
    } else {
        b
    };
    let ip = s.subrange(a, b);
    let fp = if point {
        s.subrange(b + 1, c)
    } else {
        Seq::empty()
    };
    if b == a || (point && c == b + 1) {
        None
    } else if c == s.len() {
        Some((neg, ip, fp, 0))
    } else if s[c] == 'e' || s[c] == 'E' {
        let signed = c + 1 < s.len() && (s[c + 1] == '+' || s[c + 1] == '-');
        let d = if signed {
            c + 2
        } else {
            c + 1
        };
        let e = digit_run_end(s, d);
        let x = digits_value(s.subrange(d, e)) as int;
        if e == d || e != s.len() {
            None
        } else if signed && s[c + 1] == '-' {
            Some((neg, ip, fp, -x))
        } else {
            Some((neg, ip, fp, x))
        }
    } else {
        None
    }
}

/// The satang in the digits `a` when the satang point stands after the
/// first `p` of them (before the first when `p` is 0, further left when it
/// is negative; zeros fill the places past the end): the digits before the
/// point, rounded up when the first digit after it is 5 or more.
pub open spec fn shifted_satang(a: Seq<char>, p: int) -> int {
    if p >= a.len() {
        digits_value(a) * pow(10, (p - a.len()) as nat)
    } else if p < 0 {
        0
    } else {
        digits_value(a.take(p)) + if text::digit_value(a[p]) >= 5 {
            1int
        } else {
            0int
        }
    }
}

/// The satang in a number of baht written as JSON writes numbers: the
/// digits `I` and `F` moved by the exponent, read to the satang and
/// rounded by the next place. `None` when the text is no such number, or
/// its satang do not fit in an `i64`.
pub open spec fn number_satang(s: Seq<char>) -> Option<i64> {
    match number_parts(s) {
        Some((neg, ip, fp, x)) => {
            let m = shifted_satang(ip + fp, ip.len() + x + 2);
            let v = if neg {
                -m
            } else {
                m
            };
            if i64::MIN <= v <= i64::MAX {
                Some(v as i64)
            } else {
                None
            }
        },
        None => None,
    }
}

/// 2^63, one more than the largest `i64`.
pub const TWO_63: u128 = 0x8000_0000_0000_0000;

/// A bound on exponents beyond which a number is surely out of range or
/// zero: no run of digits is this long.
pub const EXPONENT_CAP: u128 = 0x4_0000_0000_0000_0000;

/// The end of the run of ASCII digits of `cs` that starts at `from`.
fn run_end(cs: &Vec<char>, from: usize) -> (k: usize)
    requires
        from <= cs@.len(),
    ensures
        k == digit_run_end(cs@, from as int),
        from <= k <= cs@.len(),
        all_digits(cs@.subrange(from as int, k as int)),
{
    let mut k = from;
    while k < cs.len() && '0' <= cs[k] && cs[k] <= '9'
        invariant
            from <= k <= cs@.len(),
            digit_run_end(cs@, k as int) == digit_run_end(cs@, from as int),
            forall|j: int| from <= j < k ==> text::is_digit(#[trigger] cs@[j]),
        decreases cs@.len() - k,
    {
        k = k + 1;
    }
    assert forall|j: int| 0 <= j < k - from implies text::is_digit(
        #[trigger] cs@.subrange(from as int, k as int)[j],
    ) by {
        assert(cs@.subrange(from as int, k as int)[j] == cs@[from + j]);
    }
    k
}

/// The value of the digits `cs[from..to]` when it is at most `cap`; one
/// more than `cap` when it is larger.
fn digits_capped(cs: &Vec<char>, from: usize, to: usize, cap: u128) -> (v: u128)
    requires
        from <= to <= cs@.len(),
        all_digits(cs@.subrange(from as int, to as int)),
        cap <= EXPONENT_CAP,
    ensures
        v <= cap ==> v == digits_value(cs@.subrange(from as int, to as int)),
        v > cap ==> v == cap + 1 && digits_value(cs@.subrange(from as int, to as int)) > cap,
{
    let ghost s = cs@.subrange(from as int, to as int);
    let mut v: u128 = 0;
    let mut i = from;
    assert(s.take(0) =~= Seq::<char>::empty());
    while i < to
        invariant
            from <= i <= to <= cs@.len(),
            s == cs@.subrange(from as int, to as int),
            all_digits(s),
            cap <= EXPONENT_CAP,
            v == digits_value(s.take(i - from)),
            v <= cap,
        decreases to - i,
    {
        let c = cs[i];
        assert(c == s[i - from]);
        assert(text::is_digit(s[i - from]));
        let d = (c as u32 - 48) as u128;
        assert(s.take(i + 1 - from).drop_last() =~= s.take(i - from));
        v = v * 10 + d;
        i = i + 1;
        if v > cap {
            proof {
                lemma_digits_value_prefix(s, i - from);
            }
            return cap + 1;
        }
    }
    assert(s.take(to - from) =~= s);
    v
}

/// Ten times `10^i` is `10^(i + 1)`.
proof fn lemma_pow10_step(d: int, i: nat)
    ensures
        d * pow(10, i + 1) == d * pow(10, i) * 10,
{
    assert(pow(10, i + 1) == 10 * pow(10, i)) by {
        reveal(pow);
    }
    assert(d * (10 * pow(10, i)) == d * pow(10, i) * 10) by (nonlinear_arith);
}

/// `d * 10^i` grows with `i`, for `d >= 0`.
proof fn lemma_pow10_grows(d: int, i: nat, k: nat)
    requires
        d >= 0,
        i <= k,
    ensures
        d * pow(10, i) <= d * pow(10, k),
        1 <= pow(10, i),
{
    vstd::arithmetic::power::lemma_pow_increases(10, i, k);
    vstd::arithmetic::power::lemma_pow_positive(10, i);
    let a = pow(10, i);
    let b = pow(10, k);
    assert(d * a <= d * b) by (nonlinear_arith)
        requires
            d >= 0,
            a <= b,
    ;
}

/// From nineteen places on, `10^n` is more than 2^63.
proof fn lemma_pow10_exceeds(n: nat)
    requires
        n >= 19,
    ensures
        pow(10, n) > TWO_63,
{
    vstd::arithmetic::power::lemma_pow_increases(10, 19, n);
    assert(pow(10, 19) == 10_000_000_000_000_000_000) by {
        reveal_with_fuel(pow, 20);
    }
}

/// The satang of the digits `ds` with the satang point after the first
/// `ip_len + exponent + 2` of them, where the exponent is `x` (negated when
/// `xneg`), or, when `x` is one more than `EXPONENT_CAP`, some exponent
/// beyond that cap. `None` when they are more than 2^63.
fn satang_of_digits(ds: &Vec<char>, ip_len: usize, x: u128, xneg: bool, Ghost(xv): Ghost<int>) -> (r:
    Option<u128>)
    requires
        all_digits(ds@),
        ip_len <= ds@.len(),
        xv >= 0,
        (xv <= EXPONENT_CAP && x == xv) || (xv > EXPONENT_CAP && x == EXPONENT_CAP + 1),
    ensures
        ({
            let m = shifted_satang(
                ds@,
                ip_len + (if xneg {
                    -xv
                } else {
                    xv
                }) + 2,
            );
            match r {
                Some(v) => v == m && v <= TWO_63,
                None => m > TWO_63,
            }
        }),
{
    let ghost p = ip_len + (if xneg {
        -xv
    } else {
        xv
    }) + 2;
    let n = ds.len();
    assert(ds@.subrange(0, n as int) =~= ds@);
    if x > EXPONENT_CAP && xneg {
        return Some(0);
    }
    let pi: i128 = if x > EXPONENT_CAP {
        EXPONENT_CAP as i128
    } else if xneg {
        ip_len as i128 - x as i128 + 2
    } else {
        ip_len as i128 + x as i128 + 2
    };
    assert(x <= EXPONENT_CAP ==> pi == p);
    if x > EXPONENT_CAP || pi >= n as i128 {
        assert(p >= n);
        let dv = digits_capped(ds, 0, n, TWO_63);
        let ghost k: nat = (p - n) as nat;
        proof {
            lemma_pow10_grows(digits_value(ds@) as int, 0, k);
            lemma_pow10_grows(digits_value(ds@) as int, k, k);
            assert(pow(10, 0) == 1) by {
                reveal(pow);
            }
        }
        if dv > TWO_63 {
            return None;
        }
        if dv == 0 {
            assert(digits_value(ds@) == 0);
            let ghost pw = pow(10, k);
            assert(digits_value(ds@) * pw == 0) by (nonlinear_arith)
                requires
                    digits_value(ds@) == 0,
            ;
            assert(shifted_satang(ds@, p) == 0);
            return Some(0);
        }
        if x > EXPONENT_CAP {
            proof {
                lemma_pow10_exceeds(k);
                lemma_pow10_grows(1, 0, 0);
                let pw = pow(10, k);
                let d = digits_value(ds@) as int;
                assert(d * pw >= pw) by (nonlinear_arith)
                    requires
                        d >= 1,
                        pw >= 1,
                ;
                assert(p >= ds@.len());
                assert(shifted_satang(ds@, p) == d * pw);
                assert(pw > TWO_63);
                assert(shifted_satang(ds@, p) > TWO_63);
            }
            return None;
        }
        let steps = (pi - n as i128) as u128;
        assert(steps == k);
        let mut v: u128 = dv;
        let mut i: u128 = 0;
        assert(v == digits_value(ds@) * pow(10, 0));
        while i < steps
            invariant
                i <= steps,
                steps == k,
                k == p - ds@.len(),
                p >= ds@.len(),
                p == ip_len + (if xneg {
                    -xv
                } else {
                    xv
                }) + 2,
                v == digits_value(ds@) * pow(10, i as nat),
                v <= TWO_63,
            decreases steps - i,
        {
            proof {
                lemma_pow10_step(digits_value(ds@) as int, i as nat);
            }
            v = v * 10;
            i = i + 1;
            if v > TWO_63 {
                proof {
                    lemma_pow10_grows(digits_value(ds@) as int, i as nat, k);
                }
                return None;
            }
        }
        return Some(v);
    }
    if pi < 0 {
        return Some(0);
    }
    let pu = pi as usize;
    assert(pu == p);
    let q = digits_capped(ds, 0, pu, TWO_63);
    assert(ds@.subrange(0, pu as int) =~= ds@.take(pu as int));
    if q > TWO_63 {
        return None;
    }
    assert(text::is_digit(ds@[pu as int]));
    let up: u128 = if ds[pu] >= '5' {
        1
    } else {
        0
    };
    let m = q + up;
    if m > TWO_63 {
        None
    } else {
        Some(m)
    }
}

/// Reads a number of baht written as JSON writes numbers (`250`, `100.5`,
/// `-3.25`, `1e+16`, `1.5e-7`) as satang, rounded to the nearest satang by
/// the place after it.
pub fn parse_number(s: &str) -> (r: Option<i64>)
    ensures
        r == number_satang(s@),
{
    let cs = chars_of(s);
    let n = cs.len();
    let neg = n > 0 && cs[0] == '-';
    let a: usize = if neg {
        1
    } else {
        0
    };
    let b = run_end(&cs, a);
    if b == a {
        return None;
    }
    let point = b < n && cs[b] == '.';
    let c = if point {
        run_end(&cs, b + 1)
    } else {
        b
    };
    if point && c == b + 1 {
        return None;
    }
    let mut x: u128 = 0;
    let mut xneg = false;
    let ghost mut xv: int = 0;
    if c < n {
        if !(cs[c] == 'e' || cs[c] == 'E') {
            return None;
        }
        let signed = c + 1 < n && (cs[c + 1] == '+' || cs[c + 1] == '-');
        xneg = signed && cs[c + 1] == '-';
        let d = if signed {
            c + 2
        } else {
            c + 1
        };
        let e = run_end(&cs, d);
        if e == d || e != n {
            return None;
        }
        x = digits_capped(&cs, d, e, EXPONENT_CAP);
        proof {
            xv = digits_value(cs@.subrange(d as int, e as int)) as int;
        }
    }
    let ghost ip = cs@.subrange(a as int, b as int);
    let ghost fp = if point {
        cs@.subrange(b + 1, c as int)
    } else {
        Seq::<char>::empty()
    };
    assert(number_parts(s@) == Some(
        (
            neg,
            ip,
            fp,
            if xneg {
                -xv
            } else {
                xv
            },
        ),
    ));
    let mut ds: Vec<char> = Vec::new();
    let mut i = a;
    while i < b
        invariant
            a <= i <= b <= cs@.len(),
            ip == cs@.subrange(a as int, b as int),
            all_digits(ip),
            ds@ == cs@.subrange(a as int, i as int),
        decreases b - i,
    {
        ds.push(cs[i]);
        i = i + 1;
    }
    if point {
        let mut j = b + 1;
        while j < c
            invariant
                b + 1 <= j <= c <= cs@.len(),
                fp == cs@.subrange(b + 1, c as int),
                ds@ == ip + cs@.subrange(b + 1, j as int),
            decreases c - j,
        {
            ds.push(cs[j]);
            j = j + 1;
        }
    }
    assert(ds@ =~= ip + fp);
    assert(all_digits(ip + fp)) by {
        assert forall|k: int| 0 <= k < (ip + fp).len() implies text::is_digit(
            #[trigger] (ip + fp)[k],
        ) by {
            if k < ip.len() {
                assert((ip + fp)[k] == ip[k]);
            } else {
                assert((ip + fp)[k] == fp[k - ip.len()]);
            }
        }
    }
    match satang_of_digits(&ds, b - a, x, xneg, Ghost(xv)) {
        None => None,
        Some(m) => {
            if neg {
                if m == TWO_63 {
                    Some(i64::MIN)
                } else {
                    Some(-(m as i64))
                }
            } else if m > i64::MAX as u128 {
                None
            } else {
                Some(m as i64)
            }
        },
    }
}

} // verus!
