//! `unistr`: decoding of Unicode escapes.
//!
//! An escape is a backslash followed by four hexadecimal digits, by `u` and four, by
//! `+` and six, or by `U` and eight. A backslash that starts none of these is an
//! error, and so is an escape whose number is no Unicode scalar value.

use vstd::arithmetic::power::{lemma_pow_increases, pow};
use vstd::prelude::*;

use crate::error::{text_result, ErrorView, PgError};
use crate::number::{
    all_hex_digits, case_of_digits_does_not_matter, digit_value, filled_hex, hex_digit,
    is_hex_digit, is_hex_digit_char, leading_zeros_change_nothing, numeral, numeral_is_short,
    numeral_reads_back, numeral_value, zeros,
};
use crate::text::{chars_of, string_from_chars};
use crate::value::{
    is_non_text_array, map_value, mapped_value, one_text, value_result, ArgumentTypesView, Cell,
    CellFunction, CellMap, ColumnarValue, DataType, Signature, Volatility,
};

verus! {

/// A number that is the code point of some character.
pub open spec fn is_scalar_value(codepoint: nat) -> bool {
    codepoint < 0xD800 || 0xE000 <= codepoint <= 0x10FFFF
}

/// `char::from_u32`: the character with this code point, for the Unicode scalar values
/// alone.
pub assume_specification[ char::from_u32 ](i: u32) -> (c: Option<char>)
    ensures
        c == (if is_scalar_value(i as nat) {
            Some(i as char)
        } else {
            None
        }),
;

/// How many hexadecimal digits `text` starts with, counted no further than `limit`.
pub open spec fn hex_run(text: Seq<char>, limit: nat) -> nat
    decreases limit,
{
    if limit == 0 || text.len() == 0 || !is_hex_digit(text[0]) {
        0
    } else {
        1 + hex_run(text.skip(1), (limit - 1) as nat)
    }
}

/// How many hexadecimal digits an escape owes after the character that follows its
/// backslash.
pub open spec fn digits_owed(marker: char) -> Option<nat> {
    if marker == 'u' {
        Some(4)
    } else if marker == 'U' {
        Some(8)
    } else if marker == '+' {
        Some(6)
    } else if is_hex_digit(marker) {
        Some(3)
    } else {
        None
    }
}

/// The hexadecimal digits of the escape that `text` starts with, the backslash first.
pub open spec fn escape_digits(text: Seq<char>) -> Result<Seq<char>, ErrorView> {
    if text.len() < 2 {
        Err(ErrorView::InvalidEscape { found: None })
    } else {
        match digits_owed(text[1]) {
            None => Err(ErrorView::InvalidEscape { found: Some(text[1]) }),
            Some(owed) => {
                let run = hex_run(text.skip(2), owed) as int;
                if run < owed {
                    Err(
                        ErrorView::ExpectedHexDigits {
                            expected: owed,
                            digits: text.subrange(2, 2 + run),
                            found: if 2 + run < text.len() {
                                Some(text[2 + run])
                            } else {
                                None
                            },
                        },
                    )
                } else if is_hex_digit(text[1]) {
                    Ok(text.subrange(1, 2 + run))
                } else {
                    Ok(text.subrange(2, 2 + run))
                }
            },
        }
    }
}

/// The length of the escape that `text` starts with, its backslash included.
pub open spec fn escape_len(text: Seq<char>) -> nat {
    2 + digits_owed(text[1])->Some_0
}

/// The character that the escape at the start of `text` denotes.
pub open spec fn escaped_char(text: Seq<char>) -> Result<char, ErrorView> {
    match escape_digits(text) {
        Err(e) => Err(e),
        Ok(digits) => {
            let codepoint = numeral_value(digits, 16);
            if is_scalar_value(codepoint) {
                Ok(codepoint as char)
            } else {
                Err(ErrorView::InvalidCodepoint { codepoint })
            }
        },
    }
}

/// A decoded remainder behind what was decoded before it.
pub open spec fn after(decoded: Seq<char>, rest: Result<Seq<char>, ErrorView>) -> Result<
    Seq<char>,
    ErrorView,
> {
    match rest {
        Ok(text) => Ok(decoded + text),
        Err(e) => Err(e),
    }
}

/// `text` with every escape replaced by the character it denotes, or the error of the
/// first escape that denotes none.
pub open spec fn unescaped(text: Seq<char>) -> Result<Seq<char>, ErrorView>
    decreases text.len(),
{
    if text.len() == 0 {
        Ok(Seq::empty())
    } else if text[0] != '\\' {
        after(seq![text[0]], unescaped(text.skip(1)))
    } else {
        match escaped_char(text) {
            Err(e) => Err(e),
            Ok(c) => {
                proof {
                    lemma_hex_run(text.skip(2), digits_owed(text[1])->Some_0);
                }
                after(seq![c], unescaped(text.skip(escape_len(text) as int)))
            },
        }
    }
}

/// A run consists of hexadecimal digits and stops at the limit, at the end of the text
/// or before some other character.
pub proof fn lemma_hex_run(text: Seq<char>, limit: nat)
    ensures
        hex_run(text, limit) <= limit,
        hex_run(text, limit) <= text.len(),
        forall|i: int| 0 <= i < hex_run(text, limit) ==> is_hex_digit(#[trigger] text[i]),
        hex_run(text, limit) < limit && hex_run(text, limit) < text.len() ==> !is_hex_digit(
            text[hex_run(text, limit) as int],
        ),
    decreases limit,
{
    if limit == 0 || text.len() == 0 || !is_hex_digit(text[0]) {
    } else {
        let rest = text.skip(1);
        lemma_hex_run(rest, (limit - 1) as nat);
        assert forall|i: int| 0 <= i < hex_run(text, limit) implies is_hex_digit(
            #[trigger] text[i],
        ) by {
            if i > 0 {
                assert(text[i] == rest[i - 1]);
            }
        }
    }
}

/// Counts the hexadecimal digits from `start` on, `limit` at most.
fn count_hex(chars: &[char], start: usize, limit: usize) -> (n: usize)
    requires
        start <= chars@.len(),
    ensures
        n == hex_run(chars@.skip(start as int), limit as nat),
{
    let mut n: usize = 0;
    while n < limit && n < chars.len() - start && is_hex_digit_char(chars[start + n])
        invariant
            start <= chars@.len(),
            n <= limit,
            n <= chars@.len() - start,
            n + hex_run(chars@.skip(start + n), (limit - n) as nat) == hex_run(
                chars@.skip(start as int),
                limit as nat,
            ),
        decreases limit - n,
    {
        assert(chars@.skip(start + n).skip(1) =~= chars@.skip(start + n + 1));
        n = n + 1;
    }
    n
}

/// The number that at most eight hexadecimal digits stand for.
fn hex_number(digits: &[char]) -> (value: u32)
    requires
        all_hex_digits(digits@),
        digits@.len() <= 8,
    ensures
        value == numeral_value(digits@, 16),
{
    let mut value: u32 = 0;
    assert(pow(16, 0) == 1) by {
        reveal(pow);
    }
    for i in 0..digits.len()
        invariant
            all_hex_digits(digits@),
            digits@.len() <= 8,
            value == numeral_value(digits@.take(i as int), 16),
            value < pow(16, i as nat),
    {
        proof {
            assert(digits@.take(i + 1).drop_last() =~= digits@.take(i as int));
            lemma_pow_increases(16, (i + 1) as nat, 8);
            reveal_with_fuel(pow, 9);
        }
        value = value * 16 + hex_digit(digits[i]);
    }
    assert(digits@.take(digits@.len() as int) =~= digits@);
    value
}

/// Decodes the escape at the start of `chars`; gives its character and its length.
fn decode_escape(chars: &[char]) -> (r: Result<(char, usize), PgError>)
    requires
        chars@.len() > 0,
        chars@[0] == '\\',
    ensures
        match r {
            Ok((c, len)) => escaped_char(chars@) == Ok::<char, ErrorView>(c) && len == escape_len(
                chars@,
            ) && len <= chars@.len(),
            Err(e) => escaped_char(chars@) == Err::<char, ErrorView>(e@),
        },
{
    if chars.len() < 2 {
        return Err(PgError::InvalidEscape { found: None });
    }
    let marker = chars[1];
    let bare: bool = is_hex_digit_char(marker);
    let owed: usize = if marker == 'u' {
        4
    } else if marker == 'U' {
        8
    } else if marker == '+' {
        6
    } else if bare {
        3
    } else {
        return Err(PgError::InvalidEscape { found: Some(marker) });
    };
    let run: usize = count_hex(chars, 2, owed);
    proof {
        lemma_hex_run(chars@.skip(2), owed as nat);
        assert forall|i: int| 0 <= i < run implies is_hex_digit(#[trigger] chars@[2 + i]) by {
            assert(chars@[2 + i] == chars@.skip(2)[i]);
        }
    }
    if run < owed {
        let digits = vstd::slice::slice_to_vec(vstd::slice::slice_subrange(chars, 2, 2 + run));
        let found = if 2 + run < chars.len() {
            Some(chars[2 + run])
        } else {
            None
        };
        return Err(
            PgError::ExpectedHexDigits { expected: owed, digits: string_from_chars(digits), found },
        );
    }
    let first: usize = if bare {
        1
    } else {
        2
    };
    let digits = vstd::slice::slice_subrange(chars, first, 2 + run);
    assert forall|i: int| 0 <= i < digits@.len() implies is_hex_digit(#[trigger] digits@[i]) by {
        if first + i > 1 {
            assert(digits@[i] == chars@[2 + (first + i - 2)]);
        }
    }
    let codepoint = hex_number(digits);
    match char::from_u32(codepoint) {
        Some(c) => Ok((c, 2 + run)),
        None => Err(PgError::InvalidCodepoint { codepoint }),
    }
}

/// Decodes the Unicode escapes of `s`.
pub fn decode_unistr(s: &str) -> (r: Result<String, PgError>)
    ensures
        text_result(r) == unescaped(s@),
{
    let chars = chars_of(s);
    let mut out: Vec<char> = Vec::new();
    let mut i: usize = 0;
    assert(chars@.skip(0) =~= chars@);
    assert(after(out@, unescaped(chars@)) == unescaped(chars@)) by {
        if let Ok(text) = unescaped(chars@) {
            assert(out@ + text =~= text);
        }
    }
    while i < chars.len()
        invariant
            chars@ == s@,
            i <= chars@.len(),
            unescaped(chars@) == after(out@, unescaped(chars@.skip(i as int))),
        decreases chars@.len() - i,
    {
        let ghost rest = chars@.skip(i as int);
        let ghost before = out@;
        let c = chars[i];
        if c != '\\' {
            out.push(c);
            i = i + 1;
            assert(rest.skip(1) =~= chars@.skip(i as int));
        } else {
            let tail = vstd::slice::slice_subrange(chars.as_slice(), i, chars.len());
            assert(tail@ =~= rest);
            match decode_escape(tail) {
                Err(e) => {
                    return Err(e);
                },
                Ok((decoded, len)) => {
                    out.push(decoded);
                    assert(rest.skip(len as int) =~= chars@.skip(i + len));
                    i = i + len;
                },
            }
        }
        proof {
            if let Ok(text) = unescaped(chars@.skip(i as int)) {
                assert(before + (seq![out@.last()] + text) =~= out@ + text);
            }
        }
    }
    assert(out@ + Seq::<char>::empty() =~= out@);
    Ok(string_from_chars(out))
}

/// What `unistr` makes of one value. NULL stays NULL.
pub open spec fn unistr_cell() -> CellMap {
    |v: Cell|
        match v {
            Some(text) => match unescaped(text) {
                Ok(out) => Ok(Some(out)),
                Err(e) => Err(e),
            },
            None => Ok(None),
        }
}

/// The SQL function `unistr`.
#[derive(Debug, PartialEq, Eq, Hash, Structural)]
pub struct UnistrUDF;

impl CellFunction for UnistrUDF {
    open spec fn cell_map(&self) -> CellMap {
        unistr_cell()
    }

    open spec fn function_name(&self) -> Seq<char> {
        "unistr"@
    }

    fn apply(&self, v: &Option<String>) -> (r: Result<Option<String>, PgError>) {
        match v {
            Some(text) => match decode_unistr(text.as_str()) {
                Ok(out) => Ok(Some(out)),
                Err(e) => Err(e),
            },
            None => Ok(None),
        }
    }

    fn report_name(&self) -> (name: String) {
        "unistr".to_string()
    }
}

impl Default for UnistrUDF {
    fn default() -> (f: Self)
        ensures
            f == UnistrUDF,
    {
        UnistrUDF
    }
}

impl UnistrUDF {
    /// The name of the function.
    pub fn name(&self) -> (name: &'static str)
        ensures
            name@ == "unistr"@,
    {
        "unistr"
    }

    /// The arguments that the function takes.
    pub fn signature(&self) -> (s: Signature)
        ensures
            s.arguments@ == ArgumentTypesView::OneOf(seq![seq![DataType::Utf8]]),
            s.volatility == Volatility::Immutable,
    {
        one_text()
    }

    /// The type of the result.
    pub fn return_type(&self, _arg_types: &[DataType]) -> (r: Result<DataType, PgError>)
        ensures
            r == Ok::<DataType, PgError>(DataType::Utf8),
    {
        Ok(DataType::Utf8)
    }

    /// Applies the function to the first argument, cell by cell where it is a column.
    pub fn invoke_with_args(&self, args: &[ColumnarValue]) -> (r: Result<ColumnarValue, PgError>)
        requires
            args@.len() > 0,
            !is_non_text_array(args@[0]@),
        ensures
            value_result(r) == mapped_value(unistr_cell(), "unistr"@, args@[0]@),
            args@[0] matches ColumnarValue::Text(Some(text)) ==> match unescaped(text@) {
                Ok(decoded) => r matches Ok(ColumnarValue::Text(Some(out))) && out@ == decoded,
                Err(e) => r matches Err(error) && error@ == e,
            },
            args@[0] matches ColumnarValue::Text(None) ==> (r matches Ok(
                ColumnarValue::Text(None),
            )),
    {
        map_value(self, &args[0])
    }
}

/// Text without a backslash is left as it is.
pub proof fn text_without_backslash_is_unchanged(text: Seq<char>)
    requires
        !text.contains('\\'),
    ensures
        unescaped(text) == Ok::<Seq<char>, ErrorView>(text),
    decreases text.len(),
{
    if text.len() > 0 {
        assert(text.contains(text[0]));
        let rest = text.skip(1);
        assert forall|i: int| 0 <= i < rest.len() implies rest[i] != '\\' by {
            assert(text.contains(text[i + 1]));
        }
        text_without_backslash_is_unchanged(rest);
        assert(seq![text[0]] + rest =~= text);
    } else {
        assert(text =~= Seq::empty());
    }
}

/// A run that reaches its limit is not changed by what follows the text.
proof fn lemma_full_hex_run(text: Seq<char>, more: Seq<char>, limit: nat)
    requires
        hex_run(text, limit) == limit,
    ensures
        hex_run(text + more, limit) == limit,
    decreases limit,
{
    if limit > 0 {
        lemma_full_hex_run(text.skip(1), more, (limit - 1) as nat);
        assert((text + more).skip(1) =~= text.skip(1) + more);
    }
}

/// A complete escape denotes the same character whatever follows it.
proof fn lemma_escape_before(text: Seq<char>, more: Seq<char>)
    requires
        escape_digits(text) is Ok,
    ensures
        escape_digits(text + more) == escape_digits(text),
        escape_len(text + more) == escape_len(text),
        escape_len(text) <= text.len(),
{
    let owed = digits_owed(text[1])->Some_0;
    lemma_hex_run(text.skip(2), owed);
    lemma_full_hex_run(text.skip(2), more, owed);
    assert((text + more).skip(2) =~= text.skip(2) + more);
    assert((text + more).subrange(1, escape_len(text) as int) =~= text.subrange(1, escape_len(text) as int));
    assert((text + more).subrange(2, escape_len(text) as int) =~= text.subrange(2, escape_len(text) as int));
}

/// Decoding goes from left to right: behind a text that decodes, a second text is
/// decoded as it would be alone.
#[verifier::rlimit(30)]
pub proof fn decoding_concatenates(first: Seq<char>, second: Seq<char>)
    requires
        unescaped(first) is Ok,
    ensures
        unescaped(first + second) == after(unescaped(first)->Ok_0, unescaped(second)),
        unescaped(second) matches Ok(text) ==> unescaped(first + second) == Ok::<
            Seq<char>,
            ErrorView,
        >(unescaped(first)->Ok_0 + text),
        unescaped(second) matches Err(e) ==> unescaped(first + second) == Err::<
            Seq<char>,
            ErrorView,
        >(e),
    decreases first.len(),
{
    let whole = first + second;
    if first.len() == 0 {
        assert(whole =~= second);
        if let Ok(text) = unescaped(second) {
            assert(Seq::<char>::empty() + text =~= text);
        }
    } else {
        let (head, len): (Seq<char>, int) = if first[0] != '\\' {
            (seq![first[0]], 1)
        } else {
            lemma_escape_before(first, second);
            (seq![escaped_char(first)->Ok_0], escape_len(first) as int)
        };
        let rest = first.skip(len);
        assert(whole.skip(len) =~= rest + second);
        decoding_concatenates(rest, second);
        let decoded = unescaped(rest)->Ok_0;
        assert(unescaped(first)->Ok_0 =~= head + decoded);
        assert(unescaped(whole) == after(head, unescaped(rest + second)));
        if let Ok(text) = unescaped(second) {
            assert(head + (decoded + text) =~= (head + decoded) + text);
        }
    }
}

/// The digits of an escape: four bare ones, four after `u`, six after `+`, or eight
/// after `U`.
pub open spec fn is_escape_body(prefix: Seq<char>, digits: Seq<char>) -> bool {
    &&& all_hex_digits(digits)
    &&& {
        ||| prefix == Seq::<char>::empty() && digits.len() == 4
        ||| prefix == seq!['u'] && digits.len() == 4
        ||| prefix == seq!['+'] && digits.len() == 6
        ||| prefix == seq!['U'] && digits.len() == 8
    }
}

proof fn lemma_hex_run_of_digits(text: Seq<char>)
    requires
        all_hex_digits(text),
    ensures
        hex_run(text, text.len()) == text.len(),
    decreases text.len(),
{
    if text.len() > 0 {
        let rest = text.skip(1);
        assert forall|i: int| 0 <= i < rest.len() implies is_hex_digit(#[trigger] rest[i]) by {
            assert(rest[i] == text[i + 1]);
        }
        lemma_hex_run_of_digits(rest);
    }
}

/// Each of the four forms denotes the character whose code point its digits give, and
/// is an error where there is no such character.
pub proof fn escape_denotes_its_codepoint(prefix: Seq<char>, digits: Seq<char>)
    requires
        is_escape_body(prefix, digits),
    ensures
        unescaped(seq!['\\'] + prefix + digits) == (if is_scalar_value(
            numeral_value(digits, 16),
        ) {
            Ok::<Seq<char>, ErrorView>(seq![numeral_value(digits, 16) as char])
        } else {
            Err(ErrorView::InvalidCodepoint { codepoint: numeral_value(digits, 16) })
        }),
{
    let text = seq!['\\'] + prefix + digits;
    let tail = text.skip(2);
    assert forall|i: int| 0 <= i < tail.len() implies is_hex_digit(#[trigger] tail[i]) by {
        assert(tail[i] == digits[i + 1 - prefix.len()]);
    }
    lemma_hex_run_of_digits(tail);
    if prefix.len() == 0 {
        assert(is_hex_digit(digits[0]));
        assert(text[1] == digits[0]);
        assert(text.subrange(1, 5) =~= digits);
    } else {
        assert(text.subrange(2, text.len() as int) =~= digits);
    }
    assert(text.skip(text.len() as int) =~= Seq::empty());
    assert(unescaped(Seq::<char>::empty()) == Ok::<Seq<char>, ErrorView>(Seq::empty()));
    let c = numeral_value(digits, 16) as char;
    assert(seq![c] + Seq::<char>::empty() =~= seq![c]);
}

/// Every character has an escape: its code point in eight hexadecimal digits.
pub proof fn every_character_has_an_escape(c: char)
    ensures
        unescaped(seq!['\\', 'U'] + filled_hex(c as nat, 8)) == Ok::<Seq<char>, ErrorView>(seq![c]),
{
    let value = c as nat;
    let text = numeral(value, 16);
    let digits = filled_hex(value, 8);
    numeral_reads_back(value, 16);
    assert(value < pow(16, 8)) by {
        reveal_with_fuel(pow, 9);
    }
    numeral_is_short(value, 16, 8);
    let fill = (8 - text.len()) as nat;
    assert(digits =~= zeros(fill) + text);
    leading_zeros_change_nothing(text, 16, fill);
    assert forall|i: int| 0 <= i < digits.len() implies is_hex_digit(#[trigger] digits[i]) by {
        if i >= fill {
            assert(digits[i] == text[i - fill]);
        }
    }
    escape_denotes_its_codepoint(seq!['U'], digits);
    assert(seq!['\\'] + seq!['U'] + digits =~= seq!['\\', 'U'] + digits);
}

/// A backslash that starts no complete escape makes the whole text an error, behind any
/// text that decodes and whatever comes after it.
pub proof fn other_backslash_is_an_error(before: Seq<char>, text: Seq<char>)
    requires
        unescaped(before) is Ok,
        text.len() > 0,
        text[0] == '\\',
        forall|prefix: Seq<char>, digits: Seq<char>| #[trigger]
            is_escape_body(prefix, digits) ==> !(seq!['\\'] + prefix + digits).is_prefix_of(text),
    ensures
        unescaped(before + text) is Err,
{
    decoding_concatenates(before, text);
    if let Ok(digits) = escape_digits(text) {
        let owed = digits_owed(text[1])->Some_0;
        lemma_hex_run(text.skip(2), owed);
        assert forall|i: int| 0 <= i < digits.len() implies is_hex_digit(#[trigger] digits[i]) by {
            if is_hex_digit(text[1]) {
                if i > 0 {
                    assert(digits[i] == text.skip(2)[i - 1]);
                }
            } else {
                assert(digits[i] == text.skip(2)[i]);
            }
        }
        let prefix = if is_hex_digit(text[1]) {
            Seq::empty()
        } else {
            seq![text[1]]
        };
        assert(is_escape_body(prefix, digits));
        let escape = seq!['\\'] + prefix + digits;
        assert(escape =~= text.subrange(0, escape.len() as int));
        assert(escape.is_prefix_of(text));
    }
}

proof fn lemma_numeral_folds(digits: Seq<char>)
    ensures
        numeral_value(digits, 16) == digits.fold_left(
            0int,
            |n: int, c: char| n * 16 + digit_value(c),
        ),
    decreases digits.len(),
{
    if digits.len() > 0 {
        lemma_numeral_folds(digits.drop_last());
    }
}

/// The digits of an escape are read from the first to the last, each step multiplying by
/// sixteen. What they come to is the code point of the character, which must be one: no
/// surrogate and nothing above the last plane.
pub proof fn escapes_are_read_digit_by_digit(prefix: Seq<char>, digits: Seq<char>)
    requires
        forall|i: int| 0 <= i < digits.len() ==> is_hex_digit(#[trigger] digits[i]),
        (prefix.len() == 0 && digits.len() == 4) || (prefix == seq!['u'] && digits.len() == 4) || (
        prefix == seq!['+'] && digits.len() == 6) || (prefix == seq!['U'] && digits.len() == 8),
    ensures
        ({
            let codepoint = digits.fold_left(0int, |n: int, c: char| n * 16 + digit_value(c));
            unescaped(seq!['\\'] + prefix + digits) == (if 0 <= codepoint < 0xD800 || 0xE000
                <= codepoint < 0x110000 {
                Ok::<Seq<char>, ErrorView>(seq![codepoint as char])
            } else {
                Err(ErrorView::InvalidCodepoint { codepoint: codepoint as nat })
            })
        }),
{
    if prefix.len() == 0 {
        assert(prefix =~= Seq::empty());
    }
    lemma_numeral_folds(digits);
    escape_denotes_its_codepoint(prefix, digits);
}

/// An escape denotes the same character, or none, whether its letters are capitals or
/// small.
pub proof fn case_of_escapes_does_not_matter(
    prefix: Seq<char>,
    digits: Seq<char>,
    respelled: Seq<char>,
)
    requires
        forall|i: int| 0 <= i < digits.len() ==> is_hex_digit(#[trigger] digits[i]),
        (prefix.len() == 0 && digits.len() == 4) || (prefix == seq!['u'] && digits.len() == 4) || (
        prefix == seq!['+'] && digits.len() == 6) || (prefix == seq!['U'] && digits.len() == 8),
        digits.len() == respelled.len(),
        forall|i: int|
            0 <= i < digits.len() ==> #[trigger] respelled[i] == digits[i] || ('A' <= digits[i]
                <= 'F' && respelled[i] as int == digits[i] as int + 32),
    ensures
        unescaped(seq!['\\'] + prefix + respelled) == unescaped(seq!['\\'] + prefix + digits),
{
    if prefix.len() == 0 {
        assert(prefix =~= Seq::empty());
    }
    case_of_digits_does_not_matter(digits, respelled, 16);
    escape_denotes_its_codepoint(prefix, digits);
    escape_denotes_its_codepoint(prefix, respelled);
}

proof fn lemma_hex_run_stops(digits: Seq<char>, rest: Seq<char>, limit: nat)
    requires
        all_hex_digits(digits),
        digits.len() < limit,
        rest.len() == 0 || !is_hex_digit(rest[0]),
    ensures
        hex_run(digits + rest, limit) == digits.len(),
    decreases digits.len(),
{
    let text = digits + rest;
    if digits.len() == 0 {
        assert(text =~= rest);
    } else {
        assert(is_hex_digit(digits[0]));
        assert forall|i: int| 0 <= i < digits.skip(1).len() implies is_hex_digit(
            #[trigger] digits.skip(1)[i],
        ) by {
            assert(is_hex_digit(digits[i + 1]));
        }
        assert(text.skip(1) =~= digits.skip(1) + rest);
        lemma_hex_run_stops(digits.skip(1), rest, (limit - 1) as nat);
    }
}

/// An escape with too few digits is an error that tells how many were owed, which are
/// there and what stands in the place of the next. An escape without a marker owes three
/// behind its first digit.
pub proof fn short_escapes_are_errors(marker: char, digits: Seq<char>, rest: Seq<char>, owed: nat)
    requires
        (marker == 'u' && owed == 4) || (marker == '+' && owed == 6) || (marker == 'U' && owed == 8)
            || (is_hex_digit(marker) && owed == 3),
        forall|i: int| 0 <= i < digits.len() ==> is_hex_digit(#[trigger] digits[i]),
        digits.len() < owed,
        rest.len() == 0 || !is_hex_digit(rest[0]),
    ensures
        unescaped(seq!['\\', marker] + digits + rest) == Err::<Seq<char>, ErrorView>(
            ErrorView::ExpectedHexDigits {
                expected: owed,
                digits,
                found: if rest.len() > 0 {
                    Some(rest[0])
                } else {
                    None
                },
            },
        ),
{
    let text = seq!['\\', marker] + digits + rest;
    lemma_hex_run_stops(digits, rest, owed);
    assert(text.skip(2) =~= digits + rest);
    assert(text.subrange(2, (2 + digits.len()) as int) =~= digits);
}

/// A backslash at the end, or before a character that starts no escape, is an error that
/// names that character.
pub proof fn lone_backslashes_are_errors(c: char, rest: Seq<char>)
    requires
        c != 'u',
        c != 'U',
        c != '+',
        !is_hex_digit(c),
    ensures
        unescaped(seq!['\\', c] + rest) == Err::<Seq<char>, ErrorView>(
            ErrorView::InvalidEscape { found: Some(c) },
        ),
        unescaped(seq!['\\']) == Err::<Seq<char>, ErrorView>(
            ErrorView::InvalidEscape { found: None },
        ),
{
    let text = seq!['\\', c] + rest;
    assert(text[0] == '\\' && text[1] == c);
}

/// `unistr` decodes every text, the empty one too, and leaves NULL.
pub proof fn unistr_of_a_value(text: Seq<char>)
    ensures
        match unescaped(text) {
            Ok(out) => unistr_cell()(Some(text)) == Ok::<Cell, ErrorView>(Some(out)),
            Err(e) => unistr_cell()(Some(text)) == Err::<Cell, ErrorView>(e),
        },
        unistr_cell()(None) == Ok::<Cell, ErrorView>(None),
{
}

proof fn lemma_hex_run_before(text: Seq<char>, more: Seq<char>, limit: nat)
    requires
        hex_run(text, limit) < limit,
        hex_run(text, limit) < text.len(),
    ensures
        hex_run(text + more, limit) == hex_run(text, limit),
    decreases limit,
{
    if is_hex_digit(text[0]) {
        assert((text + more).skip(1) =~= text.skip(1) + more);
        lemma_hex_run_before(text.skip(1), more, (limit - 1) as nat);
    }
}

/// The first error ends the decoding: what follows it is not looked at. An escape that is
/// merely cut off by the end of the text may be completed by what follows.
pub proof fn errors_end_the_decoding(first: Seq<char>, second: Seq<char>)
    requires
        unescaped(first) is Err,
        unescaped(first)->Err_0 is InvalidEscape ==> unescaped(
            first,
        )->Err_0->InvalidEscape_found is Some,
        unescaped(first)->Err_0 is ExpectedHexDigits ==> unescaped(
            first,
        )->Err_0->ExpectedHexDigits_found is Some,
    ensures
        unescaped(first + second) == unescaped(first),
    decreases first.len(),
{
    let whole = first + second;
    if first[0] != '\\' {
        assert(whole.skip(1) =~= first.skip(1) + second);
        errors_end_the_decoding(first.skip(1), second);
    } else if escape_digits(first) is Ok {
        lemma_escape_before(first, second);
        if escaped_char(first) is Ok {
            let len = escape_len(first) as int;
            assert(whole.skip(len) =~= first.skip(len) + second);
            errors_end_the_decoding(first.skip(len), second);
        }
    } else {
        assert(whole[1] == first[1]);
        if let Some(owed) = digits_owed(first[1]) {
            let tail = first.skip(2);
            lemma_hex_run(tail, owed);
            lemma_hex_run_before(tail, second, owed);
            assert(whole.skip(2) =~= tail + second);
            let run = hex_run(tail, owed) as int;
            assert(whole.subrange(2, 2 + run) =~= first.subrange(2, 2 + run));
        }
    }
}

} // verus!
