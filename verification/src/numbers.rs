//! Numbers as text.
use crate::text::chars_of;
use vstd::prelude::*;

verus! {

/// The character of a decimal digit.
pub open spec fn digit(d: int) -> char {
    (48 + d) as char
}

/// The character of a hexadecimal digit, with small letters.
pub open spec fn hex_digit(d: int) -> char {
    if d < 10 {
        digit(d)
    } else {
        (87 + d) as char
    }
}

/// A natural number in decimal.
pub open spec fn decimal_nat(n: nat) -> Seq<char>
    decreases n,
{
    if n < 10 {
        seq![digit(n as int)]
    } else {
        decimal_nat(n / 10).push(digit((n % 10) as int))
    }
}

/// An integer in decimal, with a sign where it is negative.
pub open spec fn decimal(n: int) -> Seq<char> {
    if n < 0 {
        seq!['-'] + decimal_nat((-n) as nat)
    } else {
        decimal_nat(n as nat)
    }
}

fn digit_char(d: u8) -> (c: char)
    requires
        d < 10,
    ensures
        c == digit(d as int),
{
    (48 + d) as char
}

fn push_digits(out: &mut String, n: u128)
    ensures
        final(out)@ == old(out)@ + decimal_nat(n as nat),
    decreases n,
{
    if n >= 10 {
        push_digits(out, n / 10);
    }
    out.push(digit_char((n % 10) as u8));
    assert(out@ =~= old(out)@ + decimal_nat(n as nat));
}

/// Appends an integer in decimal.
pub fn push_decimal(out: &mut String, n: i128)
    requires
        n > i128::MIN,
    ensures
        final(out)@ == old(out)@ + decimal(n as int),
{
    if n < 0 {
        out.push('-');
        push_digits(out, (-n) as u128);
        assert(out@ =~= old(out)@ + decimal(n as int));
    } else {
        push_digits(out, n as u128);
    }
}

/// An integer in decimal.
pub fn decimal_text(n: i64) -> (r: String)
    ensures
        r@ == decimal(n as int),
{
    let mut out = String::new();
    push_decimal(&mut out, n as i128);
    assert(out@ =~= decimal(n as int));
    out
}

/// A count in decimal.
pub fn count_text(n: usize) -> (r: String)
    ensures
        r@ == decimal(n as int),
{
    let mut out = String::new();
    push_decimal(&mut out, n as i128);
    assert(out@ =~= decimal(n as int));
    out
}

/// The quotient `n / d` rounded toward zero.
pub open spec fn quotient(n: int, d: int) -> int {
    if n < 0 {
        -((-n) / d)
    } else {
        n / d
    }
}

/// Divides rounding toward zero.
pub fn divide(n: i64, d: i64) -> (r: i64)
    requires
        d > 1,
    ensures
        r == quotient(n as int, d as int),
        -4611686018427387904 <= r <= 4611686018427387903,
{
    let m: i128 = n as i128;
    let e: i128 = d as i128;
    if m < 0 {
        let q: i128 = (-m) / e;
        assert(0 <= q <= 4611686018427387904) by (nonlinear_arith)
            requires
                q == (-m) / (e as int),
                0 <= -m <= 9223372036854775808,
                e >= 2,
        ;
        (-q) as i64
    } else {
        let q: i128 = m / e;
        assert(0 <= q <= 4611686018427387903) by (nonlinear_arith)
            requires
                q == m / e,
                0 <= m <= 9223372036854775807,
                e >= 2,
        ;
        q as i64
    }
}

/// `n` in decimal, filled with a zero to two places where it has one.
pub open spec fn two_places(n: int) -> Seq<char> {
    if 0 <= n < 10 {
        seq!['0', digit(n)]
    } else {
        decimal(n)
    }
}

/// Appends a number in decimal, filled with a zero to two places.
pub fn push_two_places(out: &mut String, n: i64)
    ensures
        final(out)@ == old(out)@ + two_places(n as int),
{
    if 0 <= n && n < 10 {
        out.push('0');
        out.push(digit_char(n as u8));
        assert(out@ =~= old(out)@ + two_places(n as int));
    } else {
        push_decimal(out, n as i128);
    }
}

/// A number of milliseconds written in seconds, with three places behind the point.
pub open spec fn seconds(ms: int) -> Seq<char> {
    let m = if ms < 0 {
        -ms
    } else {
        ms
    };
    let sign: Seq<char> = if ms < 0 {
        seq!['-']
    } else {
        Seq::empty()
    };
    sign + decimal(m / 1000) + seq![
        '.',
        digit((m / 100) % 10),
        digit((m / 10) % 10),
        digit(m % 10),
    ]
}

/// Writes a number of milliseconds in seconds, with three places behind the point.
pub fn seconds_text(ms: i32) -> (r: String)
    ensures
        r@ == seconds(ms as int),
{
    let mut out = String::new();
    let m: u64 = if ms < 0 {
        out.push('-');
        (-(ms as i64)) as u64
    } else {
        ms as u64
    };
    let ghost sign = out@;
    push_decimal(&mut out, (m / 1000) as i128);
    out.push('.');
    out.push(digit_char(((m / 100) % 10) as u8));
    out.push(digit_char(((m / 10) % 10) as u8));
    out.push(digit_char((m % 10) as u8));
    assert(out@ =~= seconds(ms as int));
    out
}

/// `c` is one of the ASCII digits.
pub open spec fn is_digit(c: char) -> bool {
    '0' <= c <= '9'
}

/// Every character of `s` is an ASCII digit.
pub open spec fn all_digits(s: Seq<char>) -> bool {
    forall|i: int| 0 <= i < s.len() ==> is_digit(#[trigger] s[i])
}

/// The number that a run of digits stands for.
pub open spec fn digits_value(s: Seq<char>) -> int
    decreases s.len(),
{
    if s.len() == 0 {
        0
    } else {
        digits_value(s.drop_last()) * 10 + (s.last() as u32 - 48)
    }
}

/// The number that a text stands for: an optional sign, then at least one digit.
pub open spec fn int_value(s: Seq<char>) -> Option<int> {
    if s.len() > 0 && s[0] == '-' {
        if s.len() > 1 && all_digits(s.skip(1)) {
            Some(-digits_value(s.skip(1)))
        } else {
            None
        }
    } else if s.len() > 0 && s[0] == '+' {
        if s.len() > 1 && all_digits(s.skip(1)) {
            Some(digits_value(s.skip(1)))
        } else {
            None
        }
    } else if s.len() > 0 && all_digits(s) {
        Some(digits_value(s))
    } else {
        None
    }
}

/// The number that a text stands for, where it fits in 32 bits.
pub open spec fn i32_value(s: Seq<char>) -> Option<i32> {
    match int_value(s) {
        Some(n) => if i32::MIN <= n <= i32::MAX {
            Some(n as i32)
        } else {
            None
        },
        None => None,
    }
}

/// A run of digits is worth at least each of its beginnings.
proof fn lemma_value_grows(s: Seq<char>, k: int)
    requires
        all_digits(s),
        0 <= k <= s.len(),
    ensures
        0 <= digits_value(s.take(k)) <= digits_value(s),
    decreases s.len(),
{
    if k == s.len() {
        assert(s.take(k) =~= s);
        if s.len() > 0 {
            lemma_value_grows(s.drop_last(), s.len() - 1);
            assert(s.drop_last().take(s.len() - 1) =~= s.drop_last());
        }
    } else {
        lemma_value_grows(s.drop_last(), k);
        assert(s.drop_last().take(k) =~= s.take(k));
    }
}

/// Reads a run of digits from position `from` on, up to a bound.
fn read_digits(s: &[char], from: usize) -> (r: Option<u64>)
    requires
        from <= s@.len(),
    ensures
        ({
            let rest = s@.skip(from as int);
            match r {
                Some(v) => rest.len() > 0 && all_digits(rest) && v == digits_value(rest) && v
                    <= 0x1_0000_0000,
                None => rest.len() == 0 || !all_digits(rest) || digits_value(rest) > 0x1_0000_0000,
            }
        }),
{
    let ghost rest = s@.skip(from as int);
    if from == s.len() {
        return None;
    }
    let mut at: usize = from;
    while at < s.len()
        invariant
            from <= at <= s@.len(),
            rest == s@.skip(from as int),
            forall|j: int| from <= j < at ==> is_digit(#[trigger] s@[j]),
        decreases s@.len() - at,
    {
        let c = s[at];
        if !('0' <= c && c <= '9') {
            assert(rest[at - from] == c);
            return None;
        }
        at += 1;
    }
    assert(all_digits(rest));
    let mut value: u64 = 0;
    at = from;
    assert(rest.take(0).len() == 0);
    while at < s.len()
        invariant
            from <= at <= s@.len(),
            rest == s@.skip(from as int),
            all_digits(rest),
            value == digits_value(rest.take(at - from)),
            value <= 0x1_0000_0000,
        decreases s@.len() - at,
    {
        let c = s[at];
        assert(rest[at - from] == c);
        assert(rest.take(at - from + 1).drop_last() =~= rest.take(at - from));
        value = value * 10 + ((c as u32 - 48) as u64);
        at += 1;
        if value > 0x1_0000_0000 {
            proof {
                lemma_value_grows(rest, at - from);
            }
            return None;
        }
    }
    assert(rest.take(at - from) =~= rest);
    Some(value)
}

/// Reads a 32-bit integer: an optional sign, then digits, and nothing else.
pub fn parse_i32(s: &str) -> (r: Option<i32>)
    ensures
        r == i32_value(s@),
{
    let chars = chars_of(s);
    if chars.len() == 0 {
        return None;
    }
    if chars[0] == '-' {
        return match read_digits(&chars, 1) {
            Some(v) => if v <= 0x8000_0000 {
                Some((-(v as i64)) as i32)
            } else {
                None
            },
            None => None,
        };
    }
    if chars[0] == '+' {
        return match read_digits(&chars, 1) {
            Some(v) => if v <= 0x7fff_ffff {
                Some(v as i32)
            } else {
                None
            },
            None => None,
        };
    }
    assert(s@.skip(0) =~= s@);
    match read_digits(&chars, 0) {
        Some(v) => if v <= 0x7fff_ffff {
            Some(v as i32)
        } else {
            None
        },
        None => None,
    }
}

/// A natural number is written with digits only.
pub proof fn decimals_are_digits(n: nat)
    ensures
        all_digits(decimal(n as int)),
        decimal(n as int).len() > 0,
{
    lemma_decimal_reads_back(n);
}

proof fn lemma_decimal_reads_back(n: nat)
    ensures
        decimal_nat(n).len() > 0,
        all_digits(decimal_nat(n)),
        digits_value(decimal_nat(n)) == n,
    decreases n,
{
    let s = decimal_nat(n);
    let d = digit((n % 10) as int);
    assert(is_digit(d) && d as u32 - 48 == n % 10);
    reveal_with_fuel(digits_value, 2);
    if n >= 10 {
        lemma_decimal_reads_back(n / 10);
        assert(s.drop_last() =~= decimal_nat(n / 10));
        assert(s.last() == d);
        assert forall|i: int| 0 <= i < s.len() implies is_digit(#[trigger] s[i]) by {
            if i < s.len() - 1 {
                assert(s[i] == decimal_nat(n / 10)[i]);
            }
        }
    } else {
        assert(s[0] == d);
    }
}

/// A number that is written in decimal reads back as the same number, so that different numbers
/// are written differently. There is no leading zero.
pub proof fn written_numbers_read_back(n: int)
    ensures
        int_value(decimal(n)) == Some(n),
        forall|m: int| #[trigger] decimal(m) == decimal(n) ==> m == n,
        n > 0 ==> decimal(n)[0] != '0',
{
    lemma_reads_back(n);
    assert forall|m: int| #[trigger] decimal(m) == decimal(n) implies m == n by {
        lemma_reads_back(m);
    }
    if n > 0 {
        lemma_no_leading_zero(n as nat);
    }
}

proof fn lemma_no_leading_zero(n: nat)
    requires
        n > 0,
    ensures
        decimal_nat(n).len() > 0,
        decimal_nat(n)[0] != '0',
    decreases n,
{
    if n >= 10 {
        lemma_no_leading_zero(n / 10);
    }
}

proof fn lemma_reads_back(n: int)
    ensures
        int_value(decimal(n)) == Some(n),
{
    let m = if n < 0 {
        (-n) as nat
    } else {
        n as nat
    };
    let digits = decimal_nat(m);
    lemma_decimal_reads_back(m);
    assert(is_digit(digits[0]));
    if n < 0 {
        assert(decimal(n).skip(1) =~= digits);
    } else {
        assert(decimal(n).skip(0) =~= digits);
    }
}

/// A time in seconds is the number of milliseconds with a point in front of its last three digits:
/// without the point it reads back as that number. A negative time has a sign in front. So
/// different times are written differently.
pub proof fn written_seconds_read_back(ms: int)
    requires
        ms >= 0,
    ensures
        seconds(ms).len() >= 5,
        seconds(ms)[seconds(ms).len() - 4] == '.',
        int_value(
            seconds(ms).take(seconds(ms).len() - 4) + seconds(ms).skip(seconds(ms).len() - 3),
        ) == Some(ms),
        ms > 0 ==> seconds(-ms) == seq!['-'] + seconds(ms),
{
    let s = seconds(ms);
    let whole = decimal_nat((ms / 1000) as nat);
    lemma_decimal_reads_back((ms / 1000) as nat);
    let a = digit((ms / 100) % 10);
    let b = digit((ms / 10) % 10);
    let c = digit(ms % 10);
    assert(s =~= whole + seq!['.', a, b, c]);
    let t = whole.push(a).push(b).push(c);
    assert(s.take(s.len() - 4) + s.skip(s.len() - 3) =~= t);
    assert(is_digit(a) && a as u32 - 48 == (ms / 100) % 10);
    assert(is_digit(b) && b as u32 - 48 == (ms / 10) % 10);
    assert(is_digit(c) && c as u32 - 48 == ms % 10);
    assert(t.drop_last() =~= whole.push(a).push(b));
    assert(whole.push(a).push(b).drop_last() =~= whole.push(a));
    assert(whole.push(a).drop_last() =~= whole);
    assert(digits_value(whole.push(a)) == ms / 1000 * 10 + (ms / 100) % 10);
    assert(digits_value(whole.push(a).push(b)) == digits_value(whole.push(a)) * 10 + (ms / 10)
        % 10);
    assert(digits_value(t) == digits_value(whole.push(a).push(b)) * 10 + ms % 10);
    assert(digits_value(t) == ms);
    assert(all_digits(t)) by {
        assert forall|i: int| 0 <= i < t.len() implies is_digit(#[trigger] t[i]) by {
            if i < whole.len() {
                assert(t[i] == whole[i]);
            }
        }
    }
    assert(is_digit(t[0]));
    assert(t.skip(0) =~= t);
    if ms > 0 {
        assert(seconds(-ms) =~= seq!['-'] + s);
    }
}

/// Different times are written differently.
pub proof fn written_seconds_differ(a: int, b: int)
    requires
        seconds(a) == seconds(b),
    ensures
        a == b,
{
    let x = if a < 0 {
        -a
    } else {
        a
    };
    let y = if b < 0 {
        -b
    } else {
        b
    };
    written_seconds_read_back(x);
    written_seconds_read_back(y);
    lemma_seconds_begin(x);
    lemma_seconds_begin(y);
    assert(a < 0 <==> seconds(a)[0] == '-');
    assert(b < 0 <==> seconds(b)[0] == '-');
    if a < 0 {
        assert(seconds(a).skip(1) =~= seconds(x));
        assert(seconds(b).skip(1) =~= seconds(y));
    }
}

proof fn lemma_seconds_begin(ms: int)
    requires
        ms >= 0,
    ensures
        seconds(ms).len() > 0,
        is_digit(seconds(ms)[0]),
{
    let whole = decimal_nat((ms / 1000) as nat);
    lemma_decimal_reads_back((ms / 1000) as nat);
    assert(seconds(ms)[0] == whole[0]);
}

/// What a quotient leaves of a number is smaller than the divisor and has the sign of the number.
pub proof fn quotient_leaves_less_than_the_divisor(n: int, d: int)
    requires
        d > 0,
    ensures
        -d < n - d * quotient(n, d) < d,
        n >= 0 ==> n - d * quotient(n, d) >= 0 && quotient(n, d) >= 0,
        n <= 0 ==> n - d * quotient(n, d) <= 0 && quotient(n, d) <= 0,
{
    let m = if n < 0 {
        -n
    } else {
        n
    };
    let q = m / d;
    assert(0 <= m - d * q < d && q >= 0) by (nonlinear_arith)
        requires
            d > 0,
            m >= 0,
            q == m / d,
    ;
    assert(d * (-q) == -(d * q)) by (nonlinear_arith);
}

/// A number that is filled to two places reads back as the same number and has at least two
/// places.
pub proof fn filled_numbers_read_back(n: int)
    requires
        n >= 0,
    ensures
        int_value(two_places(n)) == Some(n),
        two_places(n).len() >= 2,
{
    if n < 10 {
        let s = two_places(n);
        let d = digit(n);
        assert(is_digit(d) && d as u32 - 48 == n);
        assert(s =~= seq!['0', d]);
        assert(s.skip(0) =~= s);
        assert(all_digits(s));
        assert(s.drop_last() =~= seq!['0']);
        assert(seq!['0'].drop_last() =~= Seq::<char>::empty());
        reveal_with_fuel(digits_value, 3);
    } else {
        lemma_reads_back(n);
        lemma_decimal_reads_back((n / 10) as nat);
    }
}

/// The sixteen hexadecimal digits differ from each other.
pub proof fn hex_digits_differ(a: int, b: int)
    requires
        0 <= a < 16,
        0 <= b < 16,
    ensures
        hex_digit(a) == hex_digit(b) <==> a == b,
        hex_digit(a) != '-',
{
}

/// A number of 32 bits reads back from what is written for it; a greater or smaller one is not read.
pub proof fn only_numbers_of_32_bits_are_read(n: int)
    ensures
        i32::MIN <= n <= i32::MAX ==> i32_value(decimal(n)) == Some(n as i32),
        n < i32::MIN || n > i32::MAX ==> i32_value(decimal(n)) is None,
{
    lemma_reads_back(n);
}

}
