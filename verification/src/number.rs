//! Numbers as text: decimal and hexadecimal numerals, read and written.

use vstd::arithmetic::div_mod::lemma_fundamental_div_mod;
use vstd::arithmetic::mul::{
    lemma_mul_is_associative, lemma_mul_is_commutative, lemma_mul_is_distributive_add_other_way,
};
use vstd::arithmetic::power::pow;
use vstd::prelude::*;

verus! {

/// An ASCII decimal digit.
pub open spec fn is_digit(c: char) -> bool {
    '0' <= c <= '9'
}

/// An ASCII hexadecimal digit, in either case.
pub open spec fn is_hex_digit(c: char) -> bool {
    is_digit(c) || 'a' <= c <= 'f' || 'A' <= c <= 'F'
}

/// The number that a hexadecimal digit stands for; a decimal digit is one too.
pub open spec fn digit_value(c: char) -> nat {
    if is_digit(c) {
        (c as int - '0' as int) as nat
    } else if 'a' <= c <= 'f' {
        (c as int - 'a' as int + 10) as nat
    } else {
        (c as int - 'A' as int + 10) as nat
    }
}

/// Every character is a decimal digit.
pub open spec fn all_digits(text: Seq<char>) -> bool {
    forall|i: int| 0 <= i < text.len() ==> is_digit(#[trigger] text[i])
}

/// Every character is a hexadecimal digit.
pub open spec fn all_hex_digits(text: Seq<char>) -> bool {
    forall|i: int| 0 <= i < text.len() ==> is_hex_digit(#[trigger] text[i])
}

/// The number that a numeral in the given base stands for, the most significant
/// digit first.
pub open spec fn numeral_value(digits: Seq<char>, base: nat) -> nat
    decreases digits.len(),
{
    if digits.len() == 0 {
        0
    } else {
        numeral_value(digits.drop_last(), base) * base + digit_value(digits.last())
    }
}

/// The digit, in upper case, that stands for a number below sixteen.
pub open spec fn digit_char(value: nat) -> char {
    if value < 10 {
        ('0' as int + value) as char
    } else {
        ('A' as int + value - 10) as char
    }
}

/// The numeral that stands for `value` in the given base, without leading zeros.
pub open spec fn numeral(value: nat, base: nat) -> Seq<char>
    decreases value,
{
    if value < base || base < 2 {
        seq![digit_char(value)]
    } else {
        proof {
            assert(value / base < value) by (nonlinear_arith)
                requires
                    2 <= base <= value,
            ;
        }
        numeral(value / base, base).push(digit_char(value % base))
    }
}

/// A decimal numeral.
pub open spec fn decimal(value: nat) -> Seq<char> {
    numeral(value, 10)
}

pub open spec fn zeros(n: nat) -> Seq<char> {
    Seq::new(n, |i: int| '0')
}

/// A hexadecimal numeral, filled up with zeros to a number of digits.
pub open spec fn filled_hex(value: nat, digits: nat) -> Seq<char> {
    let text = numeral(value, 16);
    zeros(
        if text.len() < digits {
            (digits - text.len()) as nat
        } else {
            0
        },
    ) + text
}

/// A decimal numeral with a leading `-` where the number is negative.
pub open spec fn signed_decimal(value: int) -> Seq<char> {
    if value < 0 {
        seq!['-'] + decimal((-value) as nat)
    } else {
        decimal(value as nat)
    }
}

/// `text` as a 64-bit signed integer: at least one decimal digit, after at most one
/// sign, with a value in range.
pub open spec fn signed_value(text: Seq<char>) -> Option<int> {
    let signed = text.len() > 0 && (text[0] == '+' || text[0] == '-');
    let digits = if signed {
        text.skip(1)
    } else {
        text
    };
    let magnitude = numeral_value(digits, 10) as int;
    let value = if signed && text[0] == '-' {
        -magnitude
    } else {
        magnitude
    };
    if digits.len() > 0 && all_digits(digits) && i64::MIN <= value <= i64::MAX {
        Some(value)
    } else {
        None
    }
}

pub fn is_digit_char(c: char) -> (b: bool)
    ensures
        b == is_digit(c),
{
    '0' <= c && c <= '9'
}

pub fn is_hex_digit_char(c: char) -> (b: bool)
    ensures
        b == is_hex_digit(c),
{
    is_digit_char(c) || ('a' <= c && c <= 'f') || ('A' <= c && c <= 'F')
}

fn are_digit_chars(text: &[char]) -> (b: bool)
    ensures
        b == all_digits(text@),
{
    for i in 0..text.len()
        invariant
            forall|j: int| 0 <= j < i ==> is_digit(#[trigger] text@[j]),
    {
        if !is_digit_char(text[i]) {
            return false;
        }
    }
    true
}

/// The value of one hexadecimal digit.
pub fn hex_digit(c: char) -> (value: u32)
    requires
        is_hex_digit(c),
    ensures
        value == digit_value(c),
        value < 16,
        value < 10 ==> c as int == '0' as int + value,
        value >= 10 ==> c as int == 'A' as int + value - 10 || c as int == 'a' as int + value - 10,
{
    if is_digit_char(c) {
        c as u32 - '0' as u32
    } else if 'a' <= c && c <= 'f' {
        c as u32 - 'a' as u32 + 10
    } else {
        c as u32 - 'A' as u32 + 10
    }
}

/// A longer numeral never stands for a smaller number.
proof fn lemma_numeral_value_grows(digits: Seq<char>, n: int)
    requires
        0 <= n <= digits.len(),
    ensures
        numeral_value(digits.take(n), 10) <= numeral_value(digits, 10),
    decreases digits.len(),
{
    if n == digits.len() {
        assert(digits.take(n) =~= digits);
    } else {
        lemma_numeral_value_grows(digits.drop_last(), n);
        assert(digits.drop_last().take(n) =~= digits.take(n));
    }
}

/// The value of a decimal numeral, or `None` where it does not fit in 64 bits.
pub fn parse_decimal(digits: &[char]) -> (value: Option<u64>)
    requires
        all_digits(digits@),
    ensures
        value == (if numeral_value(digits@, 10) <= u64::MAX {
            Some(numeral_value(digits@, 10) as u64)
        } else {
            None
        }),
{
    let mut value: u64 = 0;
    for i in 0..digits.len()
        invariant
            all_digits(digits@),
            value == numeral_value(digits@.take(i as int), 10),
    {
        proof {
            assert(digits@.take(i + 1).drop_last() =~= digits@.take(i as int));
            lemma_numeral_value_grows(digits@, i + 1);
        }
        let digit: u64 = hex_digit(digits[i]) as u64;
        if value > (u64::MAX - digit) / 10 {
            return None;
        }
        value = value * 10 + digit;
    }
    assert(digits@.take(digits@.len() as int) =~= digits@);
    Some(value)
}

/// Reads a 64-bit signed integer, as `str::parse::<i64>` does.
pub fn parse_signed(text: &[char]) -> (value: Option<i64>)
    ensures
        match value {
            Some(v) => signed_value(text@) == Some(v as int),
            None => signed_value(text@) is None,
        },
{
    let negative: bool = text.len() > 0 && text[0] == '-';
    let signed: bool = negative || (text.len() > 0 && text[0] == '+');
    let digits: &[char] = if signed {
        vstd::slice::slice_subrange(text, 1, text.len())
    } else {
        text
    };
    proof {
        if signed {
            assert(digits@ =~= text@.skip(1));
        }
    }
    if digits.len() == 0 || !are_digit_chars(digits) {
        return None;
    }
    match parse_decimal(digits) {
        None => None,
        Some(magnitude) => if negative {
            if magnitude > 0x8000_0000_0000_0000 {
                None
            } else if magnitude == 0x8000_0000_0000_0000 {
                Some(i64::MIN)
            } else {
                Some(-(magnitude as i64))
            }
        } else if magnitude > 0x7fff_ffff_ffff_ffff {
            None
        } else {
            Some(magnitude as i64)
        },
    }
}

/// The digit character of a number below sixteen.
fn write_digit(value: u8) -> (c: char)
    requires
        value < 16,
    ensures
        c == digit_char(value as nat),
{
    if value < 10 {
        (48 + value) as char
    } else {
        (65 + (value - 10)) as char
    }
}

/// Writes `value` in the given base.
pub fn write_numeral(value: u128, base: u128) -> (out: Vec<char>)
    requires
        2 <= base <= 16,
    ensures
        out@ == numeral(value as nat, base as nat),
    decreases value,
{
    if value < base {
        let mut out: Vec<char> = Vec::new();
        out.push(write_digit(value as u8));
        out
    } else {
        assert(value / base < value) by (nonlinear_arith)
            requires
                2 <= base <= value,
        ;
        let mut out = write_numeral(value / base, base);
        out.push(write_digit((value % base) as u8));
        out
    }
}

/// Writes `value` in decimal, with a leading `-` where it is negative.
pub fn write_signed(value: i64) -> (out: Vec<char>)
    ensures
        out@ == signed_decimal(value as int),
{
    if value < 0 {
        let magnitude: u64 = (-(value + 1)) as u64 + 1;
        let mut digits = write_numeral(magnitude as u128, 10);
        let mut out: Vec<char> = Vec::new();
        out.push('-');
        out.append(&mut digits);
        assert(out@ =~= seq!['-'] + decimal(magnitude as nat));
        out
    } else {
        write_numeral(value as u128, 10)
    }
}

/// A leading zero is a digit like any other: it leaves the number as it is.
pub proof fn leading_zero_changes_nothing(digits: Seq<char>, base: nat)
    ensures
        numeral_value(seq!['0'] + digits, base) == numeral_value(digits, base),
    decreases digits.len(),
{
    let zeroed = seq!['0'] + digits;
    if digits.len() == 0 {
        assert(zeroed.drop_last() =~= Seq::empty());
        assert(numeral_value(zeroed.drop_last(), base) == 0);
    } else {
        assert(zeroed.drop_last() =~= seq!['0'] + digits.drop_last());
        leading_zero_changes_nothing(digits.drop_last(), base);
    }
}

/// Any number of leading zeros leaves the number as it is.
pub proof fn leading_zeros_change_nothing(digits: Seq<char>, base: nat, n: nat)
    ensures
        numeral_value(zeros(n) + digits, base) == numeral_value(digits, base),
    decreases n,
{
    if n == 0 {
        assert(zeros(n) + digits =~= digits);
    } else {
        leading_zeros_change_nothing(digits, base, (n - 1) as nat);
        leading_zero_changes_nothing(zeros((n - 1) as nat) + digits, base);
        assert(zeros(n) + digits =~= seq!['0'] + (zeros((n - 1) as nat) + digits));
    }
}

/// What is written as a numeral reads back as the same number.
pub proof fn numeral_reads_back(value: nat, base: nat)
    requires
        2 <= base <= 16,
    ensures
        numeral(value, base).len() > 0,
        all_hex_digits(numeral(value, base)),
        base <= 10 ==> all_digits(numeral(value, base)),
        numeral_value(numeral(value, base), base) == value,
    decreases value,
{
    let text = numeral(value, base);
    if value < base {
        assert(text.drop_last() =~= Seq::empty());
        assert(numeral_value(text.drop_last(), base) == 0);
        assert(0 * base == 0);
    } else {
        assert(value / base < value) by (nonlinear_arith)
            requires
                2 <= base <= value,
        ;
        numeral_reads_back(value / base, base);
        assert(text.drop_last() =~= numeral(value / base, base));
        lemma_fundamental_div_mod(value as int, base as int);
        lemma_mul_is_commutative(base as int, (value / base) as int);
        assert(value % base < base) by (nonlinear_arith)
            requires
                2 <= base,
        ;
    }
}

/// A number below a power of the base has no more digits than the exponent.
pub proof fn numeral_is_short(value: nat, base: nat, digits: nat)
    requires
        2 <= base,
        0 < digits,
        value < pow(base as int, digits),
    ensures
        numeral(value, base).len() <= digits,
    decreases digits,
{
    reveal(pow);
    if value >= base {
        assert(pow(base as int, 0) == 1);
        assert(digits > 1) by {
            if digits == 1 {
                assert(pow(base as int, 1) == base * pow(base as int, 0));
                assert(base * 1 == base) by (nonlinear_arith);
            }
        }
        let rest = pow(base as int, (digits - 1) as nat);
        assert(value / base < rest) by (nonlinear_arith)
            requires
                value < base * rest,
                2 <= base,
        ;
        numeral_is_short(value / base, base, (digits - 1) as nat);
    }
}

/// Every 64-bit integer survives being written as text and read back.
pub proof fn signed_text_reads_back(value: int)
    requires
        i64::MIN <= value <= i64::MAX,
    ensures
        signed_value(signed_decimal(value)) == Some(value),
{
    let magnitude = if value < 0 {
        (-value) as nat
    } else {
        value as nat
    };
    numeral_reads_back(magnitude, 10);
    let text = signed_decimal(value);
    if value < 0 {
        assert(text.skip(1) =~= decimal(magnitude));
    } else {
        assert(is_digit(text[0]));
    }
}

/// The sixteen digits in order, the capitals and the small letters: each stands for its
/// place, and the first ten are the decimal ones.
pub proof fn digits_stand_for_their_places(place: int)
    requires
        0 <= place < 16,
    ensures
        ({
            let capital = seq![
                '0', '1', '2', '3', '4', '5', '6', '7', '8', '9', 'A', 'B', 'C', 'D', 'E', 'F',
            ][place];
            let small = seq![
                '0', '1', '2', '3', '4', '5', '6', '7', '8', '9', 'a', 'b', 'c', 'd', 'e', 'f',
            ][place];
            &&& is_hex_digit(capital) && digit_value(capital) == place
            &&& is_hex_digit(small) && digit_value(small) == place
            &&& is_digit(capital) <==> place < 10
            &&& is_digit(small) <==> place < 10
            &&& digit_char(place as nat) == capital
        }),
{
    if place < 4 {
        assert(place == 0 || place == 1 || place == 2 || place == 3);
    } else if place < 8 {
        assert(place == 4 || place == 5 || place == 6 || place == 7);
    } else if place < 12 {
        assert(place == 8 || place == 9 || place == 10 || place == 11);
    } else {
        assert(place == 12 || place == 13 || place == 14 || place == 15);
    }
}

/// There are no digits but these.
pub proof fn no_other_digits(c: char)
    ensures
        is_digit(c) <==> seq!['0', '1', '2', '3', '4', '5', '6', '7', '8', '9'].contains(c),
        is_hex_digit(c) <==> is_digit(c) || seq!['A', 'B', 'C', 'D', 'E', 'F'].contains(c)
            || seq!['a', 'b', 'c', 'd', 'e', 'f'].contains(c),
{
    let decimals = seq!['0', '1', '2', '3', '4', '5', '6', '7', '8', '9'];
    let capitals = seq!['A', 'B', 'C', 'D', 'E', 'F'];
    let smalls = seq!['a', 'b', 'c', 'd', 'e', 'f'];
    if is_digit(c) {
        assert(decimals[c as int - '0' as int] == c);
    } else if 'A' <= c <= 'F' {
        assert(capitals[c as int - 'A' as int] == c);
    } else if 'a' <= c <= 'f' {
        assert(smalls[c as int - 'a' as int] == c);
    }
}

/// A small letter stands for the same number as its capital, wherever it occurs.
pub proof fn case_of_digits_does_not_matter(first: Seq<char>, second: Seq<char>, base: nat)
    requires
        all_hex_digits(first),
        first.len() == second.len(),
        forall|i: int|
            0 <= i < first.len() ==> #[trigger] second[i] == first[i] || ('A' <= first[i] <= 'F'
                && second[i] as int == first[i] as int + 32),
    ensures
        all_hex_digits(second),
        numeral_value(first, base) == numeral_value(second, base),
    decreases first.len(),
{
    assert forall|i: int| 0 <= i < second.len() implies is_hex_digit(#[trigger] second[i]) by {
        assert(is_hex_digit(first[i]));
    }
    if first.len() > 0 {
        let last = first.len() - 1;
        assert(second[last] == first[last] || second[last] as int == first[last] as int + 32);
        assert forall|i: int| 0 <= i < last implies #[trigger] second.drop_last()[i]
            == first.drop_last()[i] || ('A' <= first.drop_last()[i] <= 'F'
            && second.drop_last()[i] as int == first.drop_last()[i] as int + 32) by {
            assert(second.drop_last()[i] == second[i]);
        }
        case_of_digits_does_not_matter(first.drop_last(), second.drop_last(), base);
    }
}

/// A numeral is positional: the digits in front count once for each power of the base
/// that the digits behind them span. One digit counts as itself.
pub proof fn numerals_are_positional(first: Seq<char>, second: Seq<char>, base: nat)
    ensures
        numeral_value(first + second, base) == numeral_value(first, base) * pow(
            base as int,
            second.len(),
        ) + numeral_value(second, base),
        first.len() == 1 ==> numeral_value(first, base) == digit_value(first[0]),
    decreases second.len(),
{
    if first.len() == 1 {
        assert(first.drop_last() =~= Seq::empty());
        assert(numeral_value(first.drop_last(), base) == 0);
        assert(0 * base == 0);
    }
    reveal(pow);
    let head = numeral_value(first, base) as int;
    if second.len() == 0 {
        assert(first + second =~= first);
        assert(pow(base as int, 0) == 1);
    } else {
        let rest = second.drop_last();
        numerals_are_positional(first, rest, base);
        assert((first + second).drop_last() =~= first + rest);
        let power = pow(base as int, rest.len());
        lemma_mul_is_distributive_add_other_way(
            base as int,
            head * power,
            numeral_value(rest, base) as int,
        );
        lemma_mul_is_associative(head, power, base as int);
        lemma_mul_is_commutative(power, base as int);
    }
}

/// A written numeral has no leading zero, but for zero itself, and its letters are
/// capitals.
pub proof fn numerals_are_canonical(value: nat, base: nat)
    requires
        2 <= base <= 16,
    ensures
        value > 0 ==> numeral(value, base)[0] != '0',
        value < base ==> numeral(value, base).len() == 1,
        forall|i: int|
            0 <= i < numeral(value, base).len() ==> is_digit(#[trigger] numeral(value, base)[i])
                || 'A' <= numeral(value, base)[i] <= 'F',
    decreases value,
{
    let text = numeral(value, base);
    if value >= base {
        assert(0 < value / base < value) by (nonlinear_arith)
            requires
                2 <= base <= value,
        ;
        assert(value % base < base) by (nonlinear_arith)
            requires
                2 <= base,
        ;
        let front = numeral(value / base, base);
        numerals_are_canonical(value / base, base);
        numeral_reads_back(value / base, base);
        assert(text[0] == front[0]);
        assert forall|i: int| 0 <= i < text.len() implies is_digit(#[trigger] text[i]) || 'A'
            <= text[i] <= 'F' by {
            if i < front.len() {
                assert(text[i] == front[i]);
            }
        }
    }
}

/// Filling up with zeros keeps the number, and stops at the number of digits asked for.
pub proof fn filling_keeps_the_number(value: nat, digits: nat)
    ensures
        all_hex_digits(filled_hex(value, digits)),
        numeral_value(filled_hex(value, digits), 16) == value,
        numeral(value, 16).is_suffix_of(filled_hex(value, digits)),
        numeral(value, 16).len() <= digits ==> filled_hex(value, digits).len() == digits,
        numeral(value, 16).len() >= digits ==> filled_hex(value, digits) == numeral(value, 16),
{
    let text = numeral(value, 16);
    let filled = filled_hex(value, digits);
    let fill = (filled.len() - text.len()) as nat;
    numeral_reads_back(value, 16);
    leading_zeros_change_nothing(text, 16, fill);
    assert(filled =~= zeros(fill) + text);
    assert(text =~= filled.skip(filled.len() - text.len()));
    assert forall|i: int| 0 <= i < filled.len() implies is_hex_digit(#[trigger] filled[i]) by {
        if i >= fill {
            assert(filled[i] == text[i - fill]);
        }
    }
}

/// Digits alone and digits behind `+` are the number that they stand for, and digits
/// behind `-` are its negation, as far as 64 bits hold it.
pub proof fn signs_of_integers(digits: Seq<char>)
    requires
        digits.len() > 0,
        all_digits(digits),
    ensures
        signed_value(digits) == (if numeral_value(digits, 10) <= 0x7FFF_FFFF_FFFF_FFFF {
            Some(numeral_value(digits, 10) as int)
        } else {
            None
        }),
        signed_value(seq!['+'] + digits) == signed_value(digits),
        signed_value(seq!['-'] + digits) == (if numeral_value(digits, 10)
            <= 0x8000_0000_0000_0000 {
            Some(-(numeral_value(digits, 10) as int))
        } else {
            None
        }),
{
    assert(is_digit(digits[0]));
    assert((seq!['+'] + digits).skip(1) =~= digits);
    assert((seq!['-'] + digits).skip(1) =~= digits);
}

/// Nothing else is an integer: not the empty text, not a sign alone, nor a text with any
/// other character.
pub proof fn other_texts_are_no_integers(text: Seq<char>)
    requires
        signed_value(text) is Some,
    ensures
        text.len() > 0,
        is_digit(text[0]) || (text.len() > 1 && (text[0] == '+' || text[0] == '-')),
        forall|i: int| 1 <= i < text.len() ==> '0' <= #[trigger] text[i] <= '9',
{
    let signed = text[0] == '+' || text[0] == '-';
    let digits = if text.len() > 0 && signed {
        text.skip(1)
    } else {
        text
    };
    assert(all_digits(digits));
    assert(digits.len() > 0);
    assert forall|i: int| 1 <= i < text.len() implies '0' <= #[trigger] text[i] <= '9' by {
        assert(text[i] == digits[if signed { i - 1 } else { i }]);
        assert(is_digit(digits[if signed { i - 1 } else { i }]));
    }
    if !signed {
        assert(is_digit(digits[0]));
    }
}

/// An integer is written without a sign unless it is negative, and then as its magnitude
/// behind one `-`.
pub proof fn integers_are_written_canonically(value: int)
    ensures
        value >= 0 ==> signed_decimal(value).len() > 0 && all_digits(signed_decimal(value))
            && numeral_value(signed_decimal(value), 10) == value,
        value > 0 ==> signed_decimal(value)[0] != '0',
        value == 0 ==> signed_decimal(value).len() == 1,
        value < 0 ==> signed_decimal(value) == seq!['-'] + signed_decimal(-value),
{
    if value >= 0 {
        numeral_reads_back(value as nat, 10);
        numerals_are_canonical(value as nat, 10);
    }
}

} // verus!
