//! Numeric literals: decimal, or hexadecimal behind the prefix `0x`.

use vstd::prelude::*;
use crate::text::chars_of;

verus! {

/// The value of `c` as a digit of the given radix (10 or 16), if it is one.
/// Hexadecimal digits may be written in either case.
pub open spec fn digit_of(c: char, radix: int) -> Option<int> {
    let d: int = match c {
        '0' => 0,
        '1' => 1,
        '2' => 2,
        '3' => 3,
        '4' => 4,
        '5' => 5,
        '6' => 6,
        '7' => 7,
        '8' => 8,
        '9' => 9,
        'a' | 'A' => 10,
        'b' | 'B' => 11,
        'c' | 'C' => 12,
        'd' | 'D' => 13,
        'e' | 'E' => 14,
        'f' | 'F' => 15,
        _ => 16,
    };
    if d < radix {
        Some(d)
    } else {
        None
    }
}

/// Whether every character of `s` is a digit of the given radix.
pub open spec fn all_digits(s: Seq<char>, radix: int) -> bool {
    forall|i: int| 0 <= i < s.len() ==> (#[trigger] digit_of(s[i], radix)) is Some
}

/// The number that the digits `s` spell in the given radix, most significant digit first.
pub open spec fn digits_value(s: Seq<char>, radix: int) -> int
    decreases s.len(),
{
    if s.len() == 0 {
        0
    } else {
        digits_value(s.drop_last(), radix) * radix + match digit_of(s.last(), radix) {
            Some(d) => d,
            None => 0,
        }
    }
}

/// The number that `s` spells, if it holds at least one digit and nothing but digits.
pub open spec fn digits_number(s: Seq<char>, radix: int) -> Option<int> {
    if s.len() > 0 && all_digits(s, radix) {
        Some(digits_value(s, radix))
    } else {
        None
    }
}

/// `s` without the `+` that it may begin with.
pub open spec fn without_plus(s: Seq<char>) -> Seq<char> {
    if s.len() > 0 && s[0] == '+' {
        s.skip(1)
    } else {
        s
    }
}

/// Whether `s` begins with `0x` or `0X`.
pub open spec fn has_hex_prefix(s: Seq<char>) -> bool {
    s.len() >= 2 && s[0] == '0' && (s[1] == 'x' || s[1] == 'X')
}

/// The number that a token spells, however large. Behind a hexadecimal prefix
/// the rest is read in base 16, otherwise the whole token in base 10; either
/// may begin with a `+`.
pub open spec fn literal_value(token: Seq<char>) -> Option<int> {
    if has_hex_prefix(token) {
        digits_number(without_plus(token.skip(2)), 16)
    } else {
        digits_number(without_plus(token), 10)
    }
}

/// The value of a numeric token: the number it spells, if it spells one and
/// the number fits in 16 bits.
pub open spec fn number_value(token: Seq<char>) -> Option<u16> {
    match literal_value(token) {
        Some(v) => if v <= 0xFFFF {
            Some(v as u16)
        } else {
            None
        },
        None => None,
    }
}

/// The digit that writes `d`, for `d` below 16; letters in lower case.
pub open spec fn digit_char(d: u8) -> char {
    match d {
        0 => '0',
        1 => '1',
        2 => '2',
        3 => '3',
        4 => '4',
        5 => '5',
        6 => '6',
        7 => '7',
        8 => '8',
        9 => '9',
        10 => 'a',
        11 => 'b',
        12 => 'c',
        13 => 'd',
        14 => 'e',
        _ => 'f',
    }
}

/// `n` written in decimal, without leading zeros.
pub open spec fn decimal_text(n: nat) -> Seq<char>
    decreases n,
{
    if n < 10 {
        seq![digit_char(n as u8)]
    } else {
        decimal_text(n / 10).push(digit_char((n % 10) as u8))
    }
}

/// `n` written in hexadecimal, without a prefix and without leading zeros.
pub open spec fn hex_text(n: nat) -> Seq<char>
    decreases n,
{
    if n < 16 {
        seq![digit_char(n as u8)]
    } else {
        hex_text(n / 16).push(digit_char((n % 16) as u8))
    }
}

/// `n` written in hexadecimal behind the prefix `0x`.
pub open spec fn hex_literal(n: nat) -> Seq<char> {
    seq!['0', 'x'] + hex_text(n)
}

/// The digits spell a number that is not negative and not below what any
/// shorter beginning of them spells.
pub proof fn lemma_digits_value_grows(s: Seq<char>, radix: int, k: int)
    requires
        1 <= radix,
        0 <= k <= s.len(),
    ensures
        0 <= digits_value(s.take(k), radix) <= digits_value(s, radix),
    decreases s.len(),
{
    if k == s.len() {
        assert(s.take(k) =~= s);
        if s.len() > 0 {
            lemma_digits_value_grows(s.drop_last(), radix, k - 1);
            assert(s.drop_last().take(k - 1) =~= s.drop_last());
            let v = digits_value(s.drop_last(), radix);
            assert(v * radix >= 0) by (nonlinear_arith)
                requires
                    v >= 0,
                    radix >= 1,
            ;
        }
    } else {
        let init = s.drop_last();
        lemma_digits_value_grows(init, radix, k);
        assert(init.take(k) =~= s.take(k));
        let v = digits_value(init, radix);
        assert(v * radix >= v) by (nonlinear_arith)
            requires
                v >= 0,
                radix >= 1,
        ;
    }
}

/// What holds of a spelling `t` of `n` that extends the spelling `init` of
/// `n / radix` by the digit for `n % radix`.
proof fn lemma_spelling_step(t: Seq<char>, init: Seq<char>, n: nat, radix: int)
    requires
        radix == 10 || radix == 16,
        n >= radix,
        t == init.push(digit_char((n % (radix as nat)) as u8)),
        init.len() > 0,
        all_digits(init, radix),
        digits_value(init, radix) == n / (radix as nat),
        without_plus(init) == init,
        radix == 10 ==> !has_hex_prefix(init),
    ensures
        all_digits(t, radix),
        digits_value(t, radix) == n,
        without_plus(t) == t,
        radix == 10 ==> !has_hex_prefix(t),
{
    let r = n % (radix as nat);
    assert(t.drop_last() =~= init);
    assert(digit_of(digit_char(r as u8), radix) == Some(r as int));
    assert forall|i: int| 0 <= i < t.len() implies (#[trigger] digit_of(t[i], radix)) is Some by {
        if i < init.len() {
            assert(t[i] == init[i]);
        }
    }
    assert(t[0] == init[0]);
    assert(digit_of(t[1], radix) is Some);
    if radix == 10 {
        assert((n / 10) * 10 + n % 10 == n);
    } else {
        assert((n / 16) * 16 + n % 16 == n);
    }
}

/// The decimal spelling of `n` consists of decimal digits that spell `n`, and
/// begins neither with a sign nor with a hexadecimal prefix.
pub proof fn lemma_decimal_text(n: nat)
    ensures
        decimal_text(n).len() > 0,
        all_digits(decimal_text(n), 10),
        digits_value(decimal_text(n), 10) == n,
        without_plus(decimal_text(n)) == decimal_text(n),
        !has_hex_prefix(decimal_text(n)),
    decreases n,
{
    let t = decimal_text(n);
    if n < 10 {
        assert(t.drop_last() =~= Seq::<char>::empty());
        assert(digits_value(t.drop_last(), 10) == 0);
    } else {
        lemma_decimal_text(n / 10);
        lemma_spelling_step(t, decimal_text(n / 10), n, 10);
    }
}

/// The hexadecimal spelling of `n` consists of hexadecimal digits that spell
/// `n`, and does not begin with a sign.
pub proof fn lemma_hex_text(n: nat)
    ensures
        hex_text(n).len() > 0,
        all_digits(hex_text(n), 16),
        digits_value(hex_text(n), 16) == n,
        without_plus(hex_text(n)) == hex_text(n),
    decreases n,
{
    let t = hex_text(n);
    if n < 16 {
        assert(t.drop_last() =~= Seq::<char>::empty());
        assert(digits_value(t.drop_last(), 16) == 0);
    } else {
        lemma_hex_text(n / 16);
        lemma_spelling_step(t, hex_text(n / 16), n, 16);
    }
}

/// A number is read back from its decimal spelling, and has a value if it fits in 16 bits.
pub proof fn lemma_decimal_text_value(n: nat)
    ensures
        literal_value(decimal_text(n)) == Some(n as int),
        n <= 0xFFFF ==> number_value(decimal_text(n)) == Some(n as u16),
        n > 0xFFFF ==> number_value(decimal_text(n)) is None,
{
    lemma_decimal_text(n);
}

/// A number is read back from its hexadecimal spelling, and has a value if it fits in 16 bits.
pub proof fn lemma_hex_literal_value(n: nat)
    ensures
        literal_value(hex_literal(n)) == Some(n as int),
        n <= 0xFFFF ==> number_value(hex_literal(n)) == Some(n as u16),
        n > 0xFFFF ==> number_value(hex_literal(n)) is None,
{
    lemma_hex_text(n);
    assert(hex_literal(n).skip(2) =~= hex_text(n));
}

/// Decimal and hexadecimal spellings agree: a token that spells a number has
/// the same value as the hexadecimal literal of that number, or like it none.
pub proof fn lemma_hex_spelling_agrees(token: Seq<char>)
    requires
        literal_value(token) is Some,
    ensures
        number_value(hex_literal(literal_value(token).unwrap() as nat)) == number_value(token),
{
    let digits = if has_hex_prefix(token) {
        without_plus(token.skip(2))
    } else {
        without_plus(token)
    };
    let radix: int = if has_hex_prefix(token) {
        16
    } else {
        10
    };
    lemma_digits_value_grows(digits, radix, 0);
    lemma_hex_literal_value(literal_value(token).unwrap() as nat);
}

/// The value of `c` as a digit of the given radix, if it is one.
fn digit(c: char, radix: u32) -> (d: Option<u32>)
    requires
        radix == 10 || radix == 16,
    ensures
        d matches Some(v) ==> digit_of(c, radix as int) == Some(v as int),
        d is None ==> digit_of(c, radix as int) is None,
{
    let v: u32 = match c {
        '0' => 0,
        '1' => 1,
        '2' => 2,
        '3' => 3,
        '4' => 4,
        '5' => 5,
        '6' => 6,
        '7' => 7,
        '8' => 8,
        '9' => 9,
        'a' | 'A' => 10,
        'b' | 'B' => 11,
        'c' | 'C' => 12,
        'd' | 'D' => 13,
        'e' | 'E' => 14,
        'f' | 'F' => 15,
        _ => 16,
    };
    if v < radix {
        Some(v)
    } else {
        None
    }
}

/// The decimal digit for `d`, as a string.
fn digit_str(d: usize) -> (s: &'static str)
    requires
        d < 10,
    ensures
        s@ == seq![digit_char(d as u8)],
{
    proof {
        reveal_strlit("0");
        reveal_strlit("1");
        reveal_strlit("2");
        reveal_strlit("3");
        reveal_strlit("4");
        reveal_strlit("5");
        reveal_strlit("6");
        reveal_strlit("7");
        reveal_strlit("8");
        reveal_strlit("9");
    }
    let s = match d {
        0 => "0",
        1 => "1",
        2 => "2",
        3 => "3",
        4 => "4",
        5 => "5",
        6 => "6",
        7 => "7",
        8 => "8",
        _ => "9",
    };
    assert(s@ =~= seq![digit_char(d as u8)]);
    s
}

/// Writes `n` in decimal.
pub fn decimal_string(n: usize) -> (text: String)
    ensures
        text@ == decimal_text(n as nat),
    decreases n,
{
    if n < 10 {
        digit_str(n).to_owned()
    } else {
        let mut text = decimal_string(n / 10);
        text.append(digit_str(n % 10));
        assert(text@ =~= decimal_text(n as nat));
        text
    }
}

/// Reads a numeric token: decimal, or hexadecimal behind `0x`. Gives `None`
/// for a token that is no number or does not fit in 16 bits.
pub fn convert_number(number: &str) -> (value: Option<u16>)
    ensures
        value == number_value(number@),
{
    let chars = chars_of(number);
    let n = chars.len();
    let hex = n >= 2 && chars[0] == '0' && (chars[1] == 'x' || chars[1] == 'X');
    let radix: u32 = if hex {
        16
    } else {
        10
    };
    let mut i: usize = if hex {
        2
    } else {
        0
    };
    let ghost signed = number@.skip(i as int);
    assert(number@.skip(0) =~= number@);
    if i < n && chars[i] == '+' {
        assert(signed.skip(1) =~= number@.skip(i + 1));
        i += 1;
    }
    let ghost digits = number@.skip(i as int);
    if i == n {
        return None;
    }
    let start = i;
    let mut acc: u32 = 0;
    assert(literal_value(number@) == digits_number(digits, radix as int));
    while i < n
        invariant
            chars@ == number@,
            literal_value(number@) == digits_number(digits, radix as int),
            n == chars.len(),
            start <= i <= n,
            radix == 10 || radix == 16,
            digits == number@.skip(start as int),
            acc <= 0xFFFF,
            acc == digits_value(digits.take(i - start), radix as int),
            all_digits(digits.take(i - start), radix as int),
        decreases n - i,
    {
        let ghost seen = digits.take(i - start);
        let ghost next = digits.take(i - start + 1);
        assert(next.drop_last() =~= seen);
        assert(next.last() == chars@[i as int]);
        match digit(chars[i], radix) {
            None => {
                assert(digits[i - start] == chars@[i as int]);
                return None;
            },
            Some(d) => {
                acc = acc * radix + d;
                assert(all_digits(next, radix as int)) by {
                    assert forall|j: int| 0 <= j < next.len() implies (#[trigger] digit_of(
                        next[j],
                        radix as int,
                    )) is Some by {
                        if j < seen.len() {
                            assert(next[j] == seen[j]);
                        }
                    }
                }
                if acc > 0xFFFF {
                    proof {
                        if all_digits(digits, radix as int) {
                            lemma_digits_value_grows(digits, radix as int, i - start + 1);
                        }
                    }
                    return None;
                }
            },
        }
        i += 1;
    }
    assert(digits.take(n - start) =~= digits);
    Some(acc as u16)
}

} // verus!
