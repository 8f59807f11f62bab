//! Unsigned numbers as text, in decimal and in hexadecimal.

use vstd::prelude::*;

verus! {

/// The value of one digit; 16 where the character is none.
pub open spec fn digit_value(c: char) -> nat {
    if '0' <= c <= '9' {
        (c as u32 - '0' as u32) as nat
    } else if 'a' <= c <= 'f' {
        (c as u32 - 'a' as u32 + 10) as nat
    } else if 'A' <= c <= 'F' {
        (c as u32 - 'A' as u32 + 10) as nat
    } else {
        16
    }
}

/// Whether `s` consists of digits of the given radix, which is 16 at most.
pub open spec fn all_digits(s: Seq<char>, radix: nat) -> bool {
    forall|i: int| 0 <= i < s.len() ==> digit_value(#[trigger] s[i]) < radix
}

/// The value of a sequence of digits, the most significant one first.
pub open spec fn value_of(s: Seq<char>, radix: nat) -> nat
    decreases s.len(),
{
    if s.len() == 0 {
        0
    } else {
        value_of(s.drop_last(), radix) * radix + digit_value(s.last())
    }
}

/// `s` without one plus sign at its start.
pub open spec fn unsigned_part(s: Seq<char>) -> Seq<char> {
    if s.len() > 0 && s[0] == '+' {
        s.drop_first()
    } else {
        s
    }
}

/// The number that `s` denotes: at least one digit, after an optional plus sign, with a value of
/// `max` at most.
pub open spec fn number_in(s: Seq<char>, radix: nat, max: nat) -> Option<nat> {
    let digits = unsigned_part(s);
    if digits.len() > 0 && all_digits(digits, radix) && value_of(digits, radix) <= max {
        Some(value_of(digits, radix))
    } else {
        None
    }
}

/// The digit of the given value, in lower case.
pub open spec fn digit_char(d: nat) -> char {
    if d == 0 {
        '0'
    } else if d == 1 {
        '1'
    } else if d == 2 {
        '2'
    } else if d == 3 {
        '3'
    } else if d == 4 {
        '4'
    } else if d == 5 {
        '5'
    } else if d == 6 {
        '6'
    } else if d == 7 {
        '7'
    } else if d == 8 {
        '8'
    } else if d == 9 {
        '9'
    } else if d == 10 {
        'a'
    } else if d == 11 {
        'b'
    } else if d == 12 {
        'c'
    } else if d == 13 {
        'd'
    } else if d == 14 {
        'e'
    } else {
        'f'
    }
}

/// The shortest text of `n` in the given radix.
pub open spec fn digits_of(n: nat, radix: nat) -> Seq<char>
    decreases n,
    via digits_of_decreases
{
    if n < radix || radix < 2 {
        seq![digit_char(n)]
    } else {
        digits_of(n / radix, radix).push(digit_char(n % radix))
    }
}

#[via_fn]
proof fn digits_of_decreases(n: nat, radix: nat) {
    if 2 <= radix <= n {
        assert(n / radix < n) by (nonlinear_arith)
            requires
                2 <= radix <= n,
        ;
    }
}

/// The digit of the given value, in upper case.
pub open spec fn capital_digit(d: nat) -> char {
    if d < 10 {
        digit_char(d)
    } else if d == 10 {
        'A'
    } else if d == 11 {
        'B'
    } else if d == 12 {
        'C'
    } else if d == 13 {
        'D'
    } else if d == 14 {
        'E'
    } else {
        'F'
    }
}

/// How many numbers can be written with so many digits in hexadecimal.
pub open spec fn room(len: nat) -> nat
    decreases len,
{
    if len == 0 {
        1
    } else {
        16 * room((len - 1) as nat)
    }
}

/// `n` in hexadecimal, with zeros in front up to a length, in upper case or in lower case.
pub open spec fn padded(n: nat, len: nat, capital: bool) -> Seq<char>
    decreases len,
{
    if len == 0 {
        Seq::empty()
    } else {
        padded(n / 16, (len - 1) as nat, capital).push(
            if capital {
                capital_digit(n % 16)
            } else {
                digit_char(n % 16)
            },
        )
    }
}

/// `n` in decimal.
pub open spec fn decimal(n: nat) -> Seq<char> {
    digits_of(n, 10)
}

/// The digits in front make up no more than all.
proof fn lemma_value_grows(s: Seq<char>, n: int, radix: nat)
    requires
        0 <= n <= s.len(),
        radix >= 1,
    ensures
        value_of(s.take(n), radix) <= value_of(s, radix),
    decreases s.len(),
{
    if n == s.len() {
        assert(s.take(n) == s);
    } else {
        lemma_value_grows(s.drop_last(), n, radix);
        assert(s.drop_last().take(n) == s.take(n));
        assert(value_of(s.drop_last(), radix) * radix >= value_of(s.drop_last(), radix))
            by (nonlinear_arith)
            requires
                radix >= 1,
        ;
    }
}

/// What is written for a number reads as that number, and holds nothing but digits.
pub proof fn law_number_round_trip(n: nat, radix: nat, max: nat)
    requires
        2 <= radix <= 16,
        n <= max,
    ensures
        digits_of(n, radix).len() > 0,
        all_digits(digits_of(n, radix), radix),
        value_of(digits_of(n, radix), radix) == n,
        number_in(digits_of(n, radix), radix, max) == Some(n),
    decreases n,
{
    let s = digits_of(n, radix);
    if n < radix {
        assert(s.drop_last() == Seq::<char>::empty());
        assert(value_of(s.drop_last(), radix) * radix == 0) by (nonlinear_arith)
            requires
                value_of(s.drop_last(), radix) == 0,
        ;
    } else {
        assert(n / radix < n && n == (n / radix) * radix + n % radix && n % radix < radix)
            by (nonlinear_arith)
            requires
                2 <= radix <= n,
        ;
        law_number_round_trip(n / radix, radix, n / radix);
        assert(s.drop_last() == digits_of(n / radix, radix));
    }
    assert(s[0] != '+') by {
        assert(digit_value(s[0]) < radix);
    }
}

/// What is written for a number up to a length reads as that number, and holds nothing but digits.
pub proof fn law_padded_round_trip(n: nat, len: nat, capital: bool, max: nat)
    requires
        n < room(len),
        n <= max,
    ensures
        padded(n, len, capital).len() == len,
        all_digits(padded(n, len, capital), 16),
        value_of(padded(n, len, capital), 16) == n,
        len > 0 ==> number_in(padded(n, len, capital), 16, max) == Some(n),
    decreases len,
{
    if len > 0 {
        let s = padded(n, len, capital);
        law_padded_round_trip(n / 16, (len - 1) as nat, capital, n / 16);
        assert(s.drop_last() =~= padded(n / 16, (len - 1) as nat, capital));
        assert(digit_value(s.last()) == n % 16);
        assert(s[0] != '+') by {
            assert(digit_value(s[0]) < 16);
        }
    }
}

/// The digits stand for the numbers from nothing up, letters in either case for those from ten on,
/// and no other character is a digit.
pub proof fn law_digits(c: char, d: nat)
    requires
        d < 16,
    ensures
        digit_value("0123456789abcdef"@[d as int]) == d,
        digit_value("0123456789ABCDEF"@[d as int]) == d,
        digit_value(c) >= 16 <==> !"0123456789abcdefABCDEF"@.contains(c),
        digit_char(d) == "0123456789abcdef"@[d as int],
        capital_digit(d) == "0123456789ABCDEF"@[d as int],
{
    reveal_strlit("0123456789abcdef");
    reveal_strlit("0123456789ABCDEF");
    reveal_strlit("0123456789abcdefABCDEF");
    let all = "0123456789abcdefABCDEF"@;
    if digit_value(c) < 16 {
        if '0' <= c <= '9' {
            assert(all[c as u32 - '0' as u32] == c);
        } else if 'a' <= c <= 'f' {
            assert(all[c as u32 - 'a' as u32 + 10] == c);
        } else {
            assert(all[c as u32 - 'A' as u32 + 16] == c);
        }
    }
    if all.contains(c) {
        let i = all.index_of(c);
        assert(all[i] == c);
    }
}

/// A number in some radix is written with its last digit behind what is left of it.
pub proof fn law_writing(n: nat, d: nat, radix: nat)
    requires
        2 <= radix <= 16,
        d < radix,
    ensures
        digits_of(d, radix) == seq!["0123456789abcdef"@[d as int]],
        n > 0 ==> digits_of(n * radix + d, radix) == digits_of(n, radix).push(
            "0123456789abcdef"@[d as int],
        ),
{
    law_digits('0', d);
    if n > 0 {
        let m = n * radix + d;
        assert(m / radix == n && m % radix == d && m >= radix) by (nonlinear_arith)
            requires
                m == n * radix + d,
                d < radix,
                n > 0,
        ;
    }
}

/// A number in decimal is written with its last digit behind what is left of it.
pub proof fn law_decimal(n: nat, d: nat)
    requires
        d < 10,
    ensures
        decimal(d) == seq!["0123456789"@[d as int]],
        n > 0 ==> decimal(n * 10 + d) == decimal(n).push("0123456789"@[d as int]),
{
    reveal_strlit("0123456789");
    reveal_strlit("0123456789abcdef");
    law_writing(n, d, 10);
}

/// What is read of a number grows with each digit, up to the greatest that is asked; it takes at
/// least one digit, behind a plus sign or not, and nothing but digits.
pub proof fn law_reading(s: Seq<char>, c: char, radix: nat, max: nat)
    requires
        2 <= radix <= 16,
    ensures
        number_in(Seq::<char>::empty(), radix, max) is None,
        number_in(seq!['+'], radix, max) is None,
        digit_value(c) >= radix ==> number_in(s.push(c), radix, max) is None,
        digit_value(c) < radix ==> {
            let d = digit_value(c);
            let one = if d <= max {
                Some(d)
            } else {
                None
            };
            &&& number_in(seq![c], radix, max) == one
            &&& number_in(seq!['+', c], radix, max) == one
            &&& number_in(s, radix, max) matches Some(v) ==> number_in(s.push(c), radix, max)
                == if v * radix + d <= max {
                Some(v * radix + d)
            } else {
                None
            }
            &&& s.len() > 0 && s != seq!['+'] && number_in(s, radix, max) is None ==> number_in(
                s.push(c),
                radix,
                max,
            ) is None
        },
{
    let t = s.push(c);
    let digits = unsigned_part(s);
    let more = unsigned_part(t);
    assert(unsigned_part(seq!['+']) =~= Seq::<char>::empty());
    if digit_value(c) >= radix {
        if t.len() > 1 || c != '+' {
            assert(more.last() == c);
            assert(more[more.len() - 1] == c);
        }
    } else {
        assert(digit_value('+') == 16);
        lemma_one_digit(c, radix);
        assert(unsigned_part(seq!['+', c]) =~= seq![c]);
        if s.len() > 0 {
            assert(t[0] == s[0]);
            assert(more =~= digits.push(c));
            assert(more.drop_last() =~= digits);
            if all_digits(more, radix) {
                assert forall|i: int| 0 <= i < digits.len() implies digit_value(
                    #[trigger] digits[i],
                ) < radix by {
                    assert(more[i] == digits[i]);
                }
            }
            if all_digits(digits, radix) {
                assert forall|i: int| 0 <= i < more.len() implies digit_value(#[trigger] more[i])
                    < radix by {
                    if i < digits.len() {
                        assert(more[i] == digits[i]);
                    }
                }
            }
            lemma_value_grows(more, digits.len() as int, radix);
            assert(more.take(digits.len() as int) =~= digits);
            if digits.len() == 0 {
                assert(s =~= seq!['+']);
            }
        }
    }
}

/// One digit makes up its own value.
proof fn lemma_one_digit(c: char, radix: nat)
    ensures
        value_of(seq![c], radix) == digit_value(c),
{
    assert(seq![c].drop_last() =~= Seq::<char>::empty());
    assert(value_of(seq![c].drop_last(), radix) * radix == 0) by (nonlinear_arith)
        requires
            value_of(seq![c].drop_last(), radix) == 0,
    ;
}

/// Digits in hexadecimal make up less than all that can be written with so many.
pub(crate) proof fn lemma_value_in_room(s: Seq<char>)
    requires
        all_digits(s, 16),
    ensures
        value_of(s, 16) < room(s.len()),
    decreases s.len(),
{
    if s.len() > 0 {
        lemma_value_in_room(s.drop_last());
        assert(digit_value(s.last()) < 16);
    }
}

/// The value of one digit; 16 where the character is none.
fn digit(c: char) -> (r: u32)
    ensures
        r == digit_value(c),
{
    if '0' <= c && c <= '9' {
        c as u32 - '0' as u32
    } else if 'a' <= c && c <= 'f' {
        c as u32 - 'a' as u32 + 10
    } else if 'A' <= c && c <= 'F' {
        c as u32 - 'A' as u32 + 10
    } else {
        16
    }
}

/// Reads an unsigned number that may have a plus sign in front.
pub fn parse(s: &[char], radix: u32, max: u64) -> (r: Option<u64>)
    requires
        2 <= radix <= 16,
    ensures
        r is Some <==> number_in(s@, radix as nat, max as nat) is Some,
        r matches Some(n) ==> number_in(s@, radix as nat, max as nat) == Some(n as nat),
{
    let d: &[char] = if s.len() > 0 && s[0] == '+' {
        &s[1..s.len()]
    } else {
        s
    };
    assert(d@ == unsigned_part(s@));
    if d.len() == 0 {
        return None;
    }
    let mut v: u64 = 0;
    let mut i: usize = 0;
    while i < d.len()
        invariant
            2 <= radix <= 16,
            0 <= i <= d@.len(),
            d@.len() > 0,
            d@ == unsigned_part(s@),
            v == value_of(d@.take(i as int), radix as nat),
            v <= max,
            forall|j: int| 0 <= j < i ==> digit_value(#[trigger] d@[j]) < radix,
        decreases d@.len() - i,
    {
        let x: u32 = digit(d[i]);
        if x >= radix {
            assert(digit_value(d@[i as int]) >= radix);
            return None;
        }
        assert(d@.take(i + 1).drop_last() == d@.take(i as int));
        assert((v as u128) * (radix as u128) <= 0xffff_ffff_ffff_ffff * 16) by (nonlinear_arith)
            requires
                v <= 0xffff_ffff_ffff_ffff,
                radix <= 16,
        ;
        let w: u128 = (v as u128) * (radix as u128) + (x as u128);
        assert(w == value_of(d@.take(i + 1), radix as nat));
        if w > max as u128 {
            proof {
                lemma_value_grows(d@, i + 1, radix as nat);
            }
            return None;
        }
        v = w as u64;
        i += 1;
    }
    assert(d@.take(i as int) == d@);
    Some(v)
}

/// Reads a decimal number of 32 bits.
pub fn parse_u32(s: &[char]) -> (r: Option<u32>)
    ensures
        r is Some <==> number_in(s@, 10, u32::MAX as nat) is Some,
        r matches Some(n) ==> number_in(s@, 10, u32::MAX as nat) == Some(n as nat),
{
    match parse(s, 10, u32::MAX as u64) {
        Some(n) => Some(n as u32),
        None => None,
    }
}

/// The digit of the given value, in lower case.
fn char_of(d: u64) -> (c: char)
    ensures
        c == digit_char(d as nat),
{
    match d {
        0 => '0',
        1 => '1',
        2 => '2',
        3 => '3',
        4 => '4',
        5 => '5',
        6 => '6',
        7 => '7',
        8 => '8',
        9 => '9',
        10 => 'a',
        11 => 'b',
        12 => 'c',
        13 => 'd',
        14 => 'e',
        _ => 'f',
    }
}

/// Appends the shortest text of a number in the given radix.
pub fn append_number(out: &mut String, n: u64, radix: u64)
    requires
        2 <= radix <= 16,
    ensures
        final(out)@ == old(out)@ + digits_of(n as nat, radix as nat),
    decreases n,
{
    if n >= radix {
        assert(n / radix < n) by (nonlinear_arith)
            requires
                2 <= radix <= n,
        ;
        append_number(out, n / radix, radix);
    }
    out.push(char_of(n % radix));
    assert(n < radix ==> n % radix == n) by (nonlinear_arith)
        requires
            radix > 0,
    ;
    assert(out@ == old(out)@ + digits_of(n as nat, radix as nat));
}

/// Appends a number in decimal.
pub fn append_decimal(out: &mut String, n: u64)
    ensures
        final(out)@ == old(out)@ + decimal(n as nat),
{
    append_number(out, n, 10);
}

} // verus!
