//! Small text building blocks: decimal digits, padding, white space and
//! joining lines.
use vstd::prelude::*;
use vstd::string::*;

verus! {

/// The ASCII digit for `d` (meant for `d < 10`).
pub open spec fn digit_char(d: nat) -> char {
    (48 + d) as char
}

/// Whether `c` is one of the ASCII digits `0`..`9`.
pub open spec fn is_digit(c: char) -> bool {
    '0' <= c && c <= '9'
}

/// The value of an ASCII digit.
pub open spec fn digit_value(c: char) -> nat {
    (c as int - 48) as nat
}

/// The decimal representation of `n`, without leading zeros.
pub open spec fn decimal(n: nat) -> Seq<char>
    decreases n,
{
    if n < 10 {
        seq![digit_char(n)]
    } else {
        decimal(n / 10).push(digit_char(n % 10))
    }
}

/// The decimal representation of a signed integer: a `-` in front of the
/// magnitude when it is negative.
pub open spec fn signed_decimal(v: int) -> Seq<char> {
    if v < 0 {
        seq!['-'] + decimal((-v) as nat)
    } else {
        decimal(v as nat)
    }
}

/// `s` padded on the left with `pad` up to `width` characters; a longer `s`
/// stays as it is.
pub open spec fn pad_left(s: Seq<char>, width: nat, pad: char) -> Seq<char> {
    if s.len() >= width {
        s
    } else {
        Seq::new((width - s.len()) as nat, |i: int| pad) + s
    }
}

/// `n` written with at least two digits (`07`, `23`).
pub open spec fn two_digits(n: nat) -> Seq<char> {
    pad_left(decimal(n), 2, '0')
}

/// The characters that have Unicode's White_Space property, which is what
/// `char::is_whitespace` and `str::trim` go by.
pub open spec fn is_white_space(c: char) -> bool {
    let u = c as int;
    ||| 9 <= u <= 13
    ||| u == 32
    ||| u == 0x85
    ||| u == 0xA0
    ||| u == 0x1680
    ||| 0x2000 <= u <= 0x200A
    ||| u == 0x2028
    ||| u == 0x2029
    ||| u == 0x202F
    ||| u == 0x205F
    ||| u == 0x3000
}

/// Index of the first non-white-space character (the length when there is
/// none).
pub open spec fn trim_start_index(s: Seq<char>) -> int
    decreases s.len(),
{
    if s.len() == 0 {
        0
    } else if is_white_space(s[0]) {
        1 + trim_start_index(s.drop_first())
    } else {
        0
    }
}

/// One past the index of the last non-white-space character (0 when there
/// is none).
pub open spec fn trim_end_index(s: Seq<char>) -> int
    decreases s.len(),
{
    if s.len() == 0 {
        0
    } else if is_white_space(s.last()) {
        trim_end_index(s.drop_last())
    } else {
        s.len() as int
    }
}

/// `s` without its leading and trailing white space.
pub open spec fn trimmed(s: Seq<char>) -> Seq<char> {
    let a = trim_start_index(s);
    let b = trim_end_index(s);
    if a < b {
        s.subrange(a, b)
    } else {
        Seq::empty()
    }
}

/// The lines joined with a newline between each two of them.
pub open spec fn join_lines(lines: Seq<Seq<char>>) -> Seq<char>
    decreases lines.len(),
{
    if lines.len() == 0 {
        Seq::empty()
    } else if lines.len() == 1 {
        lines[0]
    } else {
        join_lines(lines.drop_last()) + seq!['\n'] + lines.last()
    }
}

/// The views of a vector of strings.
pub open spec fn views(v: Seq<String>) -> Seq<Seq<char>> {
    v.map_values(|s: String| s@)
}

/// Whether `c` has Unicode's White_Space property.
pub fn white_space(c: char) -> (b: bool)
    ensures
        b == is_white_space(c),
{
    let u = c as u32;
    (9 <= u && u <= 13) || u == 32 || u == 0x85 || u == 0xA0 || u == 0x1680 || (0x2000 <= u && u
        <= 0x200A) || u == 0x2028 || u == 0x2029 || u == 0x202F || u == 0x205F || u == 0x3000
}

/// Appends the digit `d` to `out`.
fn push_digit(out: &mut String, d: usize)
    requires
        d < 10,
    ensures
        final(out)@ == old(out)@.push(digit_char(d as nat)),
{
    let digits = "0123456789";
    proof {
        reveal_strlit("0123456789");
    }
    let piece = digits.substring_char(d, d + 1);
    assert(piece@ =~= seq![digit_char(d as nat)]);
    out.append(piece);
}

/// Appends the decimal representation of `n` to `out`.
pub fn push_decimal(out: &mut String, n: u128)
    ensures
        final(out)@ == old(out)@ + decimal(n as nat),
    decreases n,
{
    if n >= 10 {
        push_decimal(out, n / 10);
    }
    push_digit(out, (n % 10) as usize);
    proof {
        if n >= 10 {
            assert(decimal(n as nat) == decimal((n / 10) as nat).push(digit_char((n % 10) as nat)));
        }
    }
}

/// The magnitude of an `i128` as a `u128`.
pub fn magnitude(v: i128) -> (m: u128)
    ensures
        m as int == if v < 0 { -v } else { v as int },
{
    if v < 0 {
        if v == i128::MIN {
            (i128::MAX as u128) + 1
        } else {
            (-v) as u128
        }
    } else {
        v as u128
    }
}

/// Appends the decimal representation of a signed integer to `out`.
pub fn push_signed(out: &mut String, v: i128)
    ensures
        final(out)@ == old(out)@ + signed_decimal(v as int),
{
    if v < 0 {
        out.append("-");
        proof {
            reveal_strlit("-");
        }
    }
    push_decimal(out, magnitude(v));
}

/// The decimal representation of a signed integer.
pub fn signed_string(v: i128) -> (s: String)
    ensures
        s@ == signed_decimal(v as int),
{
    let mut s = String::new();
    push_signed(&mut s, v);
    s
}

/// Appends `n` with at least two digits to `out`.
pub fn push_two_digits(out: &mut String, n: u32)
    ensures
        final(out)@ == old(out)@ + two_digits(n as nat),
{
    proof {
        lemma_decimal_len_small(n as nat);
        lemma_decimal_len(n as nat);
    }
    if n < 10 {
        push_digit(out, 0);
        assert(two_digits(n as nat) =~= seq!['0'] + decimal(n as nat));
    } else {
        assert(decimal(n as nat).len() >= 2);
        assert(two_digits(n as nat) == decimal(n as nat));
    }
    push_decimal(out, n as u128);
}

/// Appends `s`, padded on the left with spaces to `width`, to `out`.
pub fn push_padded(out: &mut String, s: &str, width: usize)
    ensures
        final(out)@ == old(out)@ + pad_left(s@, width as nat, ' '),
{
    let len = s.unicode_len();
    if len < width {
        let mut k = len;
        while k < width
            invariant
                len <= k <= width,
                len == s@.len(),
                out@ == old(out)@ + Seq::new((k - len) as nat, |i: int| ' '),
            decreases width - k,
        {
            out.append(" ");
            proof {
                reveal_strlit(" ");
                assert(Seq::new((k - len) as nat, |i: int| ' ').push(' ') =~= Seq::new(
                    (k + 1 - len) as nat,
                    |i: int| ' ',
                ));
            }
            k = k + 1;
        }
    }
    out.append(s);
    assert(out@ =~= old(out)@ + pad_left(s@, width as nat, ' '));
}

/// A number of ten or more has at least two digits.
pub proof fn lemma_decimal_len(n: nat)
    ensures
        decimal(n).len() >= 1,
        n >= 10 ==> decimal(n).len() >= 2,
    decreases n,
{
    if n >= 10 {
        lemma_decimal_len(n / 10);
    }
}

/// One digit is written for numbers under ten, two for numbers under a
/// hundred.
pub proof fn lemma_decimal_len_small(n: nat)
    ensures
        n < 10 ==> decimal(n) == seq![digit_char(n)],
        10 <= n < 100 ==> decimal(n) == seq![digit_char(n / 10), digit_char(n % 10)],
{
    if 10 <= n < 100 {
        assert(decimal(n / 10) == seq![digit_char(n / 10)]);
        assert(decimal(n) =~= seq![digit_char(n / 10), digit_char(n % 10)]);
    }
}

/// The characters of `s`, one by one.
pub fn chars_of(s: &str) -> (v: Vec<char>)
    ensures
        v@ == s@,
{
    let mut v: Vec<char> = Vec::new();
    for c in it: s.chars()
        invariant
            v@ == it.seq().take(it.index() as int),
            it.seq() == s@,
    {
        v.push(c);
    }
    v
}

/// `s` without leading and trailing white space, as `str::trim` gives it.
pub fn trim(s: &str) -> (t: &str)
    ensures
        t@ == trimmed(s@),
{
    let cs = chars_of(s);
    let n = cs.len();
    let mut a: usize = 0;
    assert(s@.subrange(0, n as int) =~= s@);
    while a < n && white_space(cs[a])
        invariant
            n == s@.len(),
            cs@ == s@,
            a <= n,
            trim_start_index(s@) == a + trim_start_index(s@.subrange(a as int, n as int)),
        decreases n - a,
    {
        assert(s@.subrange(a as int, n as int).drop_first() =~= s@.subrange(a + 1, n as int));
        a = a + 1;
    }
    assert(trim_start_index(s@) == a) by {
        if a < n {
            assert(s@.subrange(a as int, n as int)[0] == cs@[a as int]);
        }
    }
    let mut b: usize = n;
    while b > 0 && white_space(cs[b - 1])
        invariant
            n == s@.len(),
            cs@ == s@,
            b <= n,
            trim_end_index(s@) == trim_end_index(s@.subrange(0, b as int)),
        decreases b,
    {
        assert(s@.subrange(0, b as int).drop_last() =~= s@.subrange(0, b - 1));
        b = b - 1;
    }
    assert(trim_end_index(s@.subrange(0, b as int)) == b);
    proof {
        lemma_trim_bounds(s@);
    }
    if a < b {
        s.substring_char(a, b)
    } else {
        assert(trimmed(s@) =~= Seq::<char>::empty());
        s.substring_char(0, 0)
    }
}

/// The trimming indices lie within the string, and the characters at them
/// are not white space.
pub proof fn lemma_trim_bounds(s: Seq<char>)
    ensures
        0 <= trim_start_index(s) <= s.len(),
        0 <= trim_end_index(s) <= s.len(),
        trim_start_index(s) < s.len() ==> !is_white_space(s[trim_start_index(s)]),
        trim_end_index(s) > 0 ==> !is_white_space(s[trim_end_index(s) - 1]),
        forall|i: int| 0 <= i < trim_start_index(s) ==> is_white_space(#[trigger] s[i]),
        forall|i: int| trim_end_index(s) <= i < s.len() ==> is_white_space(#[trigger] s[i]),
    decreases s.len(),
{
    if s.len() > 0 {
        lemma_trim_bounds(s.drop_first());
        lemma_trim_bounds(s.drop_last());
        if is_white_space(s.last()) {
            assert forall|i: int| trim_end_index(s) <= i < s.len() implies is_white_space(
                #[trigger] s[i],
            ) by {
                if i < s.len() - 1 {
                    assert(s[i] == s.drop_last()[i]);
                }
            }
        }
        if is_white_space(s[0]) {
            assert forall|i: int| 0 <= i < trim_start_index(s) implies is_white_space(
                #[trigger] s[i],
            ) by {
                if i > 0 {
                    assert(s[i] == s.drop_first()[i - 1]);
                }
            }
        }
    }
}

/// Appends the lines, joined with newlines, to the empty string.
pub fn join(lines: &Vec<String>) -> (s: String)
    ensures
        s@ == join_lines(views(lines@)),
{
    let mut s = String::new();
    let n = lines.len();
    let ghost vs = views(lines@);
    let mut i: usize = 0;
    while i < n
        invariant
            n == lines@.len(),
            vs == views(lines@),
            vs.len() == n,
            i <= n,
            s@ == join_lines(vs.take(i as int)),
        decreases n - i,
    {
        if i > 0 {
            s.append("\n");
            proof {
                reveal_strlit("\n");
            }
        }
        s.append(lines[i].as_str());
        proof {
            assert(vs.take(i + 1).drop_last() =~= vs.take(i as int));
            assert(vs.take(i + 1).last() == lines@[i as int]@);
            if i == 0 {
                assert(vs.take(1) =~= seq![lines@[0]@]);
            }
        }
        i = i + 1;
    }
    assert(vs.take(n as int) =~= vs);
    s
}

/// The index of the first `c` in `s`, or -1 when there is none.
pub open spec fn first_index(s: Seq<char>, c: char) -> int {
    if exists|i: int| 0 <= i < s.len() && s[i] == c && forall|j: int| 0 <= j < i ==> s[j] != c {
        choose|i: int| 0 <= i < s.len() && s[i] == c && forall|j: int| 0 <= j < i ==> s[j] != c
    } else {
        -1
    }
}

/// The first index of `c` in `s` is the unique index before which no `c`
/// occurs.
pub proof fn lemma_first_index(s: Seq<char>, c: char, k: int)
    requires
        0 <= k <= s.len(),
        k < s.len() ==> s[k] == c,
        forall|j: int| 0 <= j < k ==> s[j] != c,
    ensures
        first_index(s, c) == if k < s.len() {
            k
        } else {
            -1
        },
{
    if k < s.len() {
        assert(exists|i: int|
            0 <= i < s.len() && s[i] == c && forall|j: int| 0 <= j < i ==> s[j] != c);
        let i = first_index(s, c);
        if i < k {
            assert(s[i] != c);
        }
        if k < i {
            assert(s[k] != c);
        }
    }
}

/// The index of the last `c` in `s`, or -1 when there is none.
pub open spec fn last_index(s: Seq<char>, c: char) -> int {
    if exists|i: int| 0 <= i < s.len() && s[i] == c && forall|j: int| i < j < s.len() ==> s[j] != c {
        choose|i: int| 0 <= i < s.len() && s[i] == c && forall|j: int| i < j < s.len() ==> s[j] != c
    } else {
        -1
    }
}

/// The last index of `c` in `s` is the unique index after which no `c`
/// occurs.
pub proof fn lemma_last_index(s: Seq<char>, c: char, k: int)
    requires
        -1 <= k < s.len(),
        k >= 0 ==> s[k] == c,
        forall|j: int| k < j < s.len() ==> s[j] != c,
    ensures
        last_index(s, c) == k,
{
    if k >= 0 {
        assert(exists|i: int|
            0 <= i < s.len() && s[i] == c && forall|j: int| i < j < s.len() ==> s[j] != c);
        let i = last_index(s, c);
        if i < k {
            assert(s[k] != c);
        }
        if k < i {
            assert(s[i] != c);
        }
    }
}

/// Lines joined by newlines begin with the first line.
pub proof fn lemma_join_lines_first(lines: Seq<Seq<char>>)
    requires
        lines.len() >= 1,
    ensures
        join_lines(lines).len() >= lines[0].len(),
        join_lines(lines).subrange(0, lines[0].len() as int) == lines[0],
    decreases lines.len(),
{
    if lines.len() > 1 {
        let rest = lines.drop_last();
        lemma_join_lines_first(rest);
        assert(rest[0] == lines[0]);
        let j = join_lines(rest) + seq!['\n'] + lines.last();
        assert(j.subrange(0, lines[0].len() as int) =~= join_lines(rest).subrange(
            0,
            lines[0].len() as int,
        ));
    }
}

} // verus!
