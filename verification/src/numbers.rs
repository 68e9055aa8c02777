//! Reading and writing numbers as text.
use vstd::prelude::*;
use vstd::string::*;

verus! {

/// A decimal digit as a character.
pub open spec fn digit(d: nat) -> char {
    (('0' as u32) + d) as char
}

/// The decimal digits of a number, without leading zeroes.
pub open spec fn digits_of(n: nat) -> Seq<char>
    decreases n,
{
    if n < 10 {
        seq![digit(n)]
    } else {
        digits_of(n / 10).push(digit(n % 10))
    }
}

/// The text of an integer in decimal.
pub open spec fn int_text_of(n: int) -> Seq<char> {
    if n < 0 {
        "-"@ + digits_of((-n) as nat)
    } else {
        digits_of(n as nat)
    }
}

fn digit_str(d: u64) -> (res: &'static str)
    requires
        d < 10,
    ensures
        res@ == seq![digit(d as nat)],
{
    proof {
        reveal_strlit("0");
        reveal_strlit("1");
        reveal_strlit("2");
        reveal_strlit("3");
        reveal_strlit("4");
        reveal_strlit("5");
        reveal_strlit("6");
        reveal_strlit("7");
        reveal_strlit("8");
        reveal_strlit("9");
    }
    let res: &'static str = if d == 0 {
        "0"
    } else if d == 1 {
        "1"
    } else if d == 2 {
        "2"
    } else if d == 3 {
        "3"
    } else if d == 4 {
        "4"
    } else if d == 5 {
        "5"
    } else if d == 6 {
        "6"
    } else if d == 7 {
        "7"
    } else if d == 8 {
        "8"
    } else {
        "9"
    };
    assert(res@ =~= seq![digit(d as nat)]);
    res
}

/// A number in decimal.
pub fn decimal_text(n: u64) -> (res: String)
    ensures
        res@ == digits_of(n as nat),
    decreases n,
{
    if n < 10 {
        String::from_str(digit_str(n))
    } else {
        let head: String = decimal_text(n / 10);
        let res: String = head.concat(digit_str(n % 10));
        assert(res@ =~= digits_of((n / 10) as nat).push(digit((n % 10) as nat)));
        res
    }
}

/// A signed number in decimal.
pub fn int_text(n: i64) -> (res: String)
    ensures
        res@ == int_text_of(n as int),
{
    if n < 0 {
        let m: u64 = if n == i64::MIN {
            0x8000_0000_0000_0000
        } else {
            (-n) as u64
        };
        let digits: String = decimal_text(m);
        String::from_str("-").concat(digits.as_str())
    } else {
        decimal_text(n as u64)
    }
}

/// Value of a decimal digit string.
pub open spec fn decimal(digits: Seq<char>) -> int
    decreases digits.len(),
{
    if digits.len() == 0 {
        0
    } else {
        10 * decimal(digits.drop_last()) + (digits.last() as int - '0' as int)
    }
}

/// Whether a character is a decimal digit.
pub open spec fn is_digit(c: char) -> bool {
    '0' <= c <= '9'
}

/// Whether every character is a decimal digit.
pub open spec fn all_digits(s: Seq<char>) -> bool {
    forall|i: int| 0 <= i < s.len() ==> is_digit(#[trigger] s[i])
}

/// The number that one or more decimal digits denote, if it is below 2^64.
pub open spec fn magnitude(digits: Seq<char>) -> Option<u64> {
    if digits.len() > 0 && all_digits(digits) && decimal(digits) <= u64::MAX {
        Some(decimal(digits) as u64)
    } else {
        None
    }
}

/// The unsigned number a string denotes: decimal digits behind an optional plus
/// sign.
pub open spec fn u64_of(s: Seq<char>) -> Option<u64> {
    magnitude(
        if s.len() > 0 && s[0] == '+' {
            s.skip(1)
        } else {
            s
        },
    )
}

/// The signed 64-bit number a string denotes: decimal digits behind an optional
/// sign.
pub open spec fn i64_of(s: Seq<char>) -> Option<i64> {
    if s.len() > 0 && s[0] == '-' {
        match magnitude(s.skip(1)) {
            Some(m) => if m <= 0x8000_0000_0000_0000 {
                Some((-(m as int)) as i64)
            } else {
                None
            },
            None => None,
        }
    } else {
        match u64_of(s) {
            Some(m) => if m <= i64::MAX {
                Some(m as i64)
            } else {
                None
            },
            None => None,
        }
    }
}

proof fn lemma_decimal_prefix(s: Seq<char>, n: int)
    requires
        0 <= n <= s.len(),
        all_digits(s),
    ensures
        0 <= decimal(s.take(n)) <= decimal(s),
    decreases s.len(),
{
    if n == s.len() {
        assert(s.take(n) =~= s);
        if n > 0 {
            assert(all_digits(s.drop_last()));
            lemma_decimal_prefix(s.drop_last(), n - 1);
        }
    } else {
        assert(all_digits(s.drop_last()));
        lemma_decimal_prefix(s.drop_last(), n);
        assert(s.drop_last().take(n) =~= s.take(n));
    }
}

/// Read the digits from `start` to the end.
fn parse_magnitude(s: &str, start: usize) -> (res: Option<u64>)
    requires
        start <= s@.len(),
    ensures
        res == magnitude(s@.skip(start as int)),
{
    let len: usize = s.unicode_len();
    let ghost digits = s@.skip(start as int);
    if start == len {
        return None;
    }
    let mut value: u64 = 0;
    let mut i: usize = start;
    assert(digits.take(0) =~= Seq::<char>::empty());
    while i < len
        invariant
            start <= i <= len,
            len == s@.len(),
            digits == s@.skip(start as int),
            start < len,
            all_digits(digits.take(i - start)),
            value == decimal(digits.take(i - start)),
        decreases len - i,
    {
        let c: char = s.get_char(i);
        assert(digits[i - start] == c);
        if !('0' <= c && c <= '9') {
            return None;
        }
        let d: u64 = (c as u32 - '0' as u32) as u64;
        proof {
            assert(digits.take(i - start + 1).drop_last() =~= digits.take(i - start));
            assert(digits.take(i - start + 1).last() == c);
            assert(decimal(digits.take(i - start + 1)) == 10 * value + d);
            if all_digits(digits) {
                lemma_decimal_prefix(digits, i - start + 1);
            }
        }
        if value > (u64::MAX - d) / 10 {
            assert(10 * value + d > u64::MAX);
            return None;
        }
        value = value * 10 + d;
        i = i + 1;
    }
    assert(digits.take(len - start) =~= digits);
    Some(value)
}

/// Read an unsigned 64-bit number.
pub fn parse_u64(s: &str) -> (res: Option<u64>)
    ensures
        res == u64_of(s@),
{
    let len: usize = s.unicode_len();
    if len > 0 && s.get_char(0) == '+' {
        parse_magnitude(s, 1)
    } else {
        assert(s@.skip(0) =~= s@);
        parse_magnitude(s, 0)
    }
}

/// Read a signed 64-bit number.
pub fn parse_i64(s: &str) -> (res: Option<i64>)
    ensures
        res == i64_of(s@),
{
    let len: usize = s.unicode_len();
    if len > 0 && s.get_char(0) == '-' {
        match parse_magnitude(s, 1) {
            Some(m) => if m < 0x8000_0000_0000_0000 {
                Some(-(m as i64))
            } else if m == 0x8000_0000_0000_0000 {
                Some(i64::MIN)
            } else {
                None
            },
            None => None,
        }
    } else {
        match parse_u64(s) {
            Some(m) => if m <= i64::MAX as u64 {
                Some(m as i64)
            } else {
                None
            },
            None => None,
        }
    }
}

/// Where the run of digits from `i` on ends.
pub open spec fn digits_end(s: Seq<char>, i: int) -> int
    decreases s.len() - i,
{
    if 0 <= i < s.len() && is_digit(s[i]) {
        digits_end(s, i + 1)
    } else {
        i
    }
}

/// Whether a sign stands at `i`.
pub open spec fn sign_at(s: Seq<char>, i: int) -> bool {
    i < s.len() && (s[i] == '+' || s[i] == '-')
}

/// Whether from `i` on there is nothing or an exponent: `e`, an optional sign,
/// and digits to the end.
pub open spec fn exponent_from(s: Seq<char>, i: int) -> bool {
    if i == s.len() {
        true
    } else {
        let d = if sign_at(s, i + 1) {
            i + 2
        } else {
            i + 1
        };
        (s[i] == 'e' || s[i] == 'E') && d < s.len() && digits_end(s, d) > d && digits_end(s, d)
            == s.len()
    }
}

/// Whether a string with a decimal point denotes a floating-point number: an
/// optional sign, digits on at least one side of the point, and an optional
/// exponent.
pub open spec fn is_float(s: Seq<char>) -> bool {
    let a = if sign_at(s, 0) {
        1int
    } else {
        0int
    };
    let b = digits_end(s, a);
    let c = digits_end(s, b + 1);
    b < s.len() && s[b] == '.' && (b - a) + (c - (b + 1)) > 0 && exponent_from(s, c)
}

fn digits_run(s: &str, from: usize) -> (res: usize)
    requires
        from <= s@.len(),
    ensures
        res == digits_end(s@, from as int),
        from <= res <= s@.len(),
{
    let len: usize = s.unicode_len();
    let mut i: usize = from;
    while i < len && '0' <= s.get_char(i) && s.get_char(i) <= '9'
        invariant
            from <= i <= len,
            len == s@.len(),
            digits_end(s@, from as int) == digits_end(s@, i as int),
        decreases len - i,
    {
        i = i + 1;
    }
    i
}

fn has_sign(s: &str, i: usize) -> (res: bool)
    ensures
        res == sign_at(s@, i as int),
{
    i < s.unicode_len() && (s.get_char(i) == '+' || s.get_char(i) == '-')
}

/// Whether a string with a decimal point denotes a floating-point number.
pub fn is_float_text(s: &str) -> (res: bool)
    ensures
        res == is_float(s@),
{
    let len: usize = s.unicode_len();
    let a: usize = if has_sign(s, 0) {
        1
    } else {
        0
    };
    let b: usize = digits_run(s, a);
    if b >= len || s.get_char(b) != '.' {
        return false;
    }
    let c: usize = digits_run(s, b + 1);
    if (b - a) == 0 && c == b + 1 {
        return false;
    }
    if c == len {
        return true;
    }
    if s.get_char(c) != 'e' && s.get_char(c) != 'E' {
        return false;
    }
    if c + 1 >= len {
        return false;
    }
    let d: usize = if has_sign(s, c + 1) {
        c + 2
    } else {
        c + 1
    };
    if d >= len {
        return false;
    }
    let e: usize = digits_run(s, d);
    e > d && e == len
}

/// Whether a string holds a decimal point.
pub open spec fn has_point(s: Seq<char>) -> bool {
    exists|i: int| 0 <= i < s.len() && s[i] == '.'
}

/// Whether a string holds a decimal point.
pub fn contains_point(s: &str) -> (res: bool)
    ensures
        res == has_point(s@),
{
    let len: usize = s.unicode_len();
    let mut i: usize = 0;
    while i < len
        invariant
            i <= len,
            len == s@.len(),
            forall|k: int| 0 <= k < i ==> s@[k] != '.',
        decreases len - i,
    {
        if s.get_char(i) == '.' {
            return true;
        }
        i = i + 1;
    }
    false
}

/// A number that is written in decimal reads back as itself.
pub proof fn law_decimal_round_trip(n: nat)
    ensures
        digits_of(n).len() > 0,
        all_digits(digits_of(n)),
        decimal(digits_of(n)) == n,
    decreases n,
{
    if n < 10 {
        assert(digits_of(n).drop_last() =~= Seq::<char>::empty());
        assert(digits_of(n).last() == digit(n));
        assert(decimal(digits_of(n).drop_last()) == 0);
    } else {
        law_decimal_round_trip(n / 10);
        assert(digits_of(n).drop_last() =~= digits_of(n / 10));
        assert(digits_of(n).last() == digit(n % 10));
        assert(decimal(digits_of(n)) == 10 * decimal(digits_of(n / 10)) + n % 10);
    }
}

} // verus!
