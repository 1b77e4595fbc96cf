//! The errors of the string functions, and the text that reports each.

use vstd::prelude::*;

use crate::number::{decimal, filled_hex, write_numeral, zeros};
use crate::text::string_from_chars;

verus! {

/// Why a function refused its arguments.
#[derive(Debug, PartialEq, Eq)]
pub enum PgError {
    /// A function of texts was given something else.
    UnexpectedArgumentType { function: String },
    /// `format` was called without arguments.
    MissingFormatString,
    /// The first argument of `format` is no text.
    FormatStringNotText,
    /// A conversion other than `%s`, `%I` and `%L`.
    UnrecognizedSpecifier { specifier: char },
    /// A position that does not fit in a machine word.
    InvalidPositionalIndex { digits: String },
    /// The position `0$`.
    ZeroPositionalIndex,
    /// A `*` width with no argument left.
    MissingWidthArgument,
    /// A `*` width whose argument is NULL.
    NullWidthArgument,
    /// A `*` width whose argument is no integer.
    InvalidWidth { text: String },
    /// The format string ends inside a directive.
    IncompleteSpecifier,
    /// A directive refers to the argument at this index, counted from zero, and it is not
    /// there.
    TooFewArguments { index: usize, supplied: usize },
    /// A normalization form other than NFC, NFD, NFKC and NFKD.
    UnsupportedForm { form: String },
    /// A backslash that starts no escape.
    InvalidEscape { found: Option<char> },
    /// An escape with too few hexadecimal digits.
    ExpectedHexDigits { expected: usize, digits: String, found: Option<char> },
    /// An escape whose number is no Unicode scalar value.
    InvalidCodepoint { codepoint: u32 },
}

/// The mathematical content of a [`PgError`].
pub enum ErrorView {
    UnexpectedArgumentType { function: Seq<char> },
    MissingFormatString,
    FormatStringNotText,
    UnrecognizedSpecifier { specifier: char },
    InvalidPositionalIndex { digits: Seq<char> },
    ZeroPositionalIndex,
    MissingWidthArgument,
    NullWidthArgument,
    InvalidWidth { text: Seq<char> },
    IncompleteSpecifier,
    TooFewArguments { index: nat, supplied: nat },
    UnsupportedForm { form: Seq<char> },
    InvalidEscape { found: Option<char> },
    ExpectedHexDigits { expected: nat, digits: Seq<char>, found: Option<char> },
    InvalidCodepoint { codepoint: nat },
}

impl View for PgError {
    type V = ErrorView;

    open spec fn view(&self) -> ErrorView {
        match *self {
            PgError::UnexpectedArgumentType { function } => ErrorView::UnexpectedArgumentType {
                function: function@,
            },
            PgError::MissingFormatString => ErrorView::MissingFormatString,
            PgError::FormatStringNotText => ErrorView::FormatStringNotText,
            PgError::UnrecognizedSpecifier { specifier } => ErrorView::UnrecognizedSpecifier {
                specifier,
            },
            PgError::InvalidPositionalIndex { digits } => ErrorView::InvalidPositionalIndex {
                digits: digits@,
            },
            PgError::ZeroPositionalIndex => ErrorView::ZeroPositionalIndex,
            PgError::MissingWidthArgument => ErrorView::MissingWidthArgument,
            PgError::NullWidthArgument => ErrorView::NullWidthArgument,
            PgError::InvalidWidth { text } => ErrorView::InvalidWidth { text: text@ },
            PgError::IncompleteSpecifier => ErrorView::IncompleteSpecifier,
            PgError::TooFewArguments { index, supplied } => ErrorView::TooFewArguments {
                index: index as nat,
                supplied: supplied as nat,
            },
            PgError::UnsupportedForm { form } => ErrorView::UnsupportedForm { form: form@ },
            PgError::InvalidEscape { found } => ErrorView::InvalidEscape { found },
            PgError::ExpectedHexDigits { expected, digits, found } => {
                ErrorView::ExpectedHexDigits { expected: expected as nat, digits: digits@, found }
            },
            PgError::InvalidCodepoint { codepoint } => ErrorView::InvalidCodepoint {
                codepoint: codepoint as nat,
            },
        }
    }
}

/// A result over views: the text or the error's content.
pub open spec fn text_result(r: Result<String, PgError>) -> Result<Seq<char>, ErrorView> {
    match r {
        Ok(text) => Ok(text@),
        Err(e) => Err(e@),
    }
}

/// The text that `{:?}` writes for a string.
pub uninterp spec fn debug_of_text(text: Seq<char>) -> Seq<char>;

/// The text that `{:?}` writes for a character.
pub uninterp spec fn debug_of_char(c: char) -> Seq<char>;

/// `std::fmt::Debug` of `str`, through `format!`: a function of the characters.
#[verifier::external_body]
fn debug_text(text: &str) -> (out: String)
    ensures
        out@ == debug_of_text(text@),
{
    format!("{:?}", text)
}

/// `std::fmt::Debug` of `char`, through `format!`: a function of the character.
#[verifier::external_body]
fn debug_char(c: char) -> (out: String)
    ensures
        out@ == debug_of_char(c),
{
    format!("{:?}", c)
}

/// The text that `{:?}` writes for an optional character.
pub open spec fn debug_of_found(found: Option<char>) -> Seq<char> {
    match found {
        Some(c) => "Some("@ + debug_of_char(c) + ")"@,
        None => "None"@,
    }
}

/// The message that reports an error.
pub open spec fn message_of(e: ErrorView) -> Seq<char> {
    match e {
        ErrorView::UnexpectedArgumentType { function } => function
            + ": unexpected argument type"@,
        ErrorView::MissingFormatString => "format: requires at least a format string argument"@,
        ErrorView::FormatStringNotText => "format: first argument must be a text format string"@,
        ErrorView::UnrecognizedSpecifier { specifier } => (
        "format: unrecognized format specifier '%"@).push(specifier)
            + "' (Postgres allows only %s, %I, %L)"@,
        ErrorView::InvalidPositionalIndex { digits } => "format: invalid positional index '"@
            + digits + "'"@,
        ErrorView::ZeroPositionalIndex => "format: positional index must be >= 1"@,
        ErrorView::MissingWidthArgument => "format: '*' width requires an argument"@,
        ErrorView::NullWidthArgument => "format: '*' width argument must not be NULL"@,
        ErrorView::InvalidWidth { text } => "format: '*' width must be an integer, got "@
            + debug_of_text(text),
        ErrorView::IncompleteSpecifier => "format: incomplete format specifier"@,
        ErrorView::TooFewArguments { index, supplied } => (
        "format: too few arguments (need at least "@) + decimal(index + 1) + ", got "@ + decimal(
            supplied,
        ) + ")"@,
        ErrorView::UnsupportedForm { form } => "normalize: unsupported normalization form '"@
            + form + "'. Must be one of NFC, NFD, NFKC, NFKD."@,
        ErrorView::InvalidEscape { found } => "unistr: invalid Unicode escape \\"@
            + debug_of_found(found)
            + "; escapes must be \\XXXX, \\+XXXXXX, \\uXXXX, or \\UXXXXXXXX"@,
        ErrorView::ExpectedHexDigits { expected, digits, found } => (
        "unistr: invalid Unicode escape (expected "@) + decimal(expected) + " hex digits, got "@
            + debug_of_text(digits) + " then "@ + debug_of_found(found)
            + "); escapes must be \\XXXX, \\+XXXXXX, \\uXXXX, or \\UXXXXXXXX"@,
        ErrorView::InvalidCodepoint { codepoint } => "unistr: invalid Unicode codepoint U+"@
            + filled_hex(codepoint, 4),
    }
}

/// Errors of a caller that broke the function's declared signature, as opposed to
/// errors of the data.
pub open spec fn is_internal_error(e: ErrorView) -> bool {
    e is UnexpectedArgumentType || e is FormatStringNotText
}

fn found_text(found: Option<char>) -> (out: String)
    ensures
        out@ == debug_of_found(found),
{
    match found {
        Some(c) => {
            let mut out = "Some(".to_string();
            out.append(debug_char(c).as_str());
            out.append(")");
            out
        },
        None => "None".to_string(),
    }
}

fn hex_codepoint(codepoint: u32) -> (out: String)
    ensures
        out@ == filled_hex(codepoint as nat, 4),
{
    let mut digits = write_numeral(codepoint as u128, 16);
    let mut out: Vec<char> = Vec::new();
    let width: usize = digits.len();
    let mut i: usize = width;
    while i < 4
        invariant
            width <= i,
            width < 4 ==> i <= 4,
            width >= 4 ==> i == width,
            out@ == zeros((i - width) as nat),
        decreases 4 - i,
    {
        out.push('0');
        i = i + 1;
    }
    out.append(&mut digits);
    assert(out@ =~= filled_hex(codepoint as nat, 4));
    string_from_chars(out)
}

impl PgError {
    /// Whether the arguments broke the function's declared signature.
    pub fn is_internal(&self) -> (b: bool)
        ensures
            b == is_internal_error(self@),
    {
        match self {
            PgError::UnexpectedArgumentType { function } => true,
            PgError::FormatStringNotText => true,
            _ => false,
        }
    }

    /// The message that reports the error.
    pub fn message(&self) -> (out: String)
        ensures
            out@ == message_of(self@),
    {
        match self {
            PgError::UnexpectedArgumentType { function } => {
                let mut out = function.clone();
                out.append(": unexpected argument type");
                out
            },
            PgError::MissingFormatString => {
                "format: requires at least a format string argument".to_string()
            },
            PgError::FormatStringNotText => {
                "format: first argument must be a text format string".to_string()
            },
            PgError::UnrecognizedSpecifier { specifier } => {
                let mut quoted: Vec<char> = Vec::new();
                quoted.push(*specifier);
                let mut out = "format: unrecognized format specifier '%".to_string();
                out.append(string_from_chars(quoted).as_str());
                out.append("' (Postgres allows only %s, %I, %L)");
                out
            },
            PgError::InvalidPositionalIndex { digits } => {
                let mut out = "format: invalid positional index '".to_string();
                out.append(digits.as_str());
                out.append("'");
                out
            },
            PgError::ZeroPositionalIndex => "format: positional index must be >= 1".to_string(),
            PgError::MissingWidthArgument => "format: '*' width requires an argument".to_string(),
            PgError::NullWidthArgument => {
                "format: '*' width argument must not be NULL".to_string()
            },
            PgError::InvalidWidth { text } => {
                let mut out = "format: '*' width must be an integer, got ".to_string();
                out.append(debug_text(text.as_str()).as_str());
                out
            },
            PgError::IncompleteSpecifier => "format: incomplete format specifier".to_string(),
            PgError::TooFewArguments { index, supplied } => {
                let mut out = "format: too few arguments (need at least ".to_string();
                out.append(string_from_chars(write_numeral(*index as u128 + 1, 10)).as_str());
                out.append(", got ");
                out.append(string_from_chars(write_numeral(*supplied as u128, 10)).as_str());
                out.append(")");
                out
            },
            PgError::UnsupportedForm { form } => {
                let mut out = "normalize: unsupported normalization form '".to_string();
                out.append(form.as_str());
                out.append("'. Must be one of NFC, NFD, NFKC, NFKD.");
                out
            },
            PgError::InvalidEscape { found } => {
                let mut out = "unistr: invalid Unicode escape \\".to_string();
                out.append(found_text(*found).as_str());
                out.append("; escapes must be \\XXXX, \\+XXXXXX, \\uXXXX, or \\UXXXXXXXX");
                out
            },
            PgError::ExpectedHexDigits { expected, digits, found } => {
                let mut out = "unistr: invalid Unicode escape (expected ".to_string();
                out.append(string_from_chars(write_numeral(*expected as u128, 10)).as_str());
                out.append(" hex digits, got ");
                out.append(debug_text(digits.as_str()).as_str());
                out.append(" then ");
                out.append(found_text(*found).as_str());
                out.append("); escapes must be \\XXXX, \\+XXXXXX, \\uXXXX, or \\UXXXXXXXX");
                out
            },
            PgError::InvalidCodepoint { codepoint } => {
                let mut out = "unistr: invalid Unicode codepoint U+".to_string();
                out.append(hex_codepoint(*codepoint).as_str());
                out
            },
        }
    }
}

/// A message that reports an input shows all of it, as it was given: names, digits and
/// specifiers as they are, texts and characters in the form that `{:?}` writes, counts in
/// decimal and code points in hexadecimal.
pub proof fn messages_show_the_input(
    text: Seq<char>,
    c: char,
    found: Option<char>,
    n: nat,
    supplied: nat,
)
    ensures
        message_of(ErrorView::UnexpectedArgumentType { function: text }) == text
            + ": unexpected argument type"@,
        message_of(ErrorView::UnrecognizedSpecifier { specifier: c })
            == "format: unrecognized format specifier '%"@ + seq![c]
            + "' (Postgres allows only %s, %I, %L)"@,
        message_of(ErrorView::InvalidPositionalIndex { digits: text })
            == "format: invalid positional index '"@ + text + "'"@,
        message_of(ErrorView::InvalidWidth { text })
            == "format: '*' width must be an integer, got "@ + debug_of_text(text),
        message_of(ErrorView::TooFewArguments { index: n, supplied })
            == "format: too few arguments (need at least "@ + decimal(n + 1) + ", got "@ + decimal(
            supplied,
        ) + ")"@,
        message_of(ErrorView::UnsupportedForm { form: text })
            == "normalize: unsupported normalization form '"@ + text
            + "'. Must be one of NFC, NFD, NFKC, NFKD."@,
        message_of(ErrorView::InvalidEscape { found: Some(c) })
            == "unistr: invalid Unicode escape \\"@ + ("Some("@ + debug_of_char(c) + ")"@)
            + "; escapes must be \\XXXX, \\+XXXXXX, \\uXXXX, or \\UXXXXXXXX"@,
        message_of(ErrorView::ExpectedHexDigits { expected: n, digits: text, found })
            == "unistr: invalid Unicode escape (expected "@ + decimal(n) + " hex digits, got "@
            + debug_of_text(text) + " then "@ + (match found {
            Some(other) => "Some("@ + debug_of_char(other) + ")"@,
            None => "None"@,
        }) + "); escapes must be \\XXXX, \\+XXXXXX, \\uXXXX, or \\UXXXXXXXX"@,
        message_of(ErrorView::InvalidCodepoint { codepoint: n })
            == "unistr: invalid Unicode codepoint U+"@ + filled_hex(n, 4),
{
    assert(("format: unrecognized format specifier '%"@).push(c)
        =~= "format: unrecognized format specifier '%"@ + seq![c]);
}

/// Only a caller that breaks the declared signature gets an internal error: a function of
/// texts refusing another type, or `format` a format string that is none. Errors that
/// report data are none.
pub proof fn errors_of_the_data_are_not_internal(e: ErrorView)
    ensures
        is_internal_error(e) <==> match e {
            ErrorView::UnexpectedArgumentType { .. } => true,
            ErrorView::FormatStringNotText => true,
            _ => false,
        },
{
}

/// A result keeps its text, character for character, or its error.
pub proof fn text_results_are_kept(r: Result<String, PgError>)
    ensures
        match r {
            Ok(text) => text_result(r) == Ok::<Seq<char>, ErrorView>(text@),
            Err(e) => text_result(r) == Err::<Seq<char>, ErrorView>(e@),
        },
{
}

/// The content of an error is the input that it reports, unchanged.
pub proof fn errors_keep_the_input(e: PgError)
    ensures
        match e {
            PgError::UnexpectedArgumentType { function: text } => e@
                matches ErrorView::UnexpectedArgumentType { function } && function == text@,
            PgError::InvalidPositionalIndex { digits: text } => e@
                matches ErrorView::InvalidPositionalIndex { digits } && digits == text@,
            PgError::InvalidWidth { text: width } => e@ matches ErrorView::InvalidWidth { text }
                && text == width@,
            PgError::UnsupportedForm { form: name } => e@ matches ErrorView::UnsupportedForm { form }
                && form == name@,
            PgError::UnrecognizedSpecifier { specifier: c } => e@
                matches ErrorView::UnrecognizedSpecifier { specifier } && specifier == c,
            PgError::TooFewArguments { index: i, supplied: n } => e@
                matches ErrorView::TooFewArguments { index, supplied } && index == i && supplied
                == n,
            PgError::InvalidEscape { found: c } => e@ matches ErrorView::InvalidEscape { found }
                && found == c,
            PgError::ExpectedHexDigits { expected: n, digits: text, found: c } => e@
                matches ErrorView::ExpectedHexDigits { expected, digits, found } && expected == n
                && digits == text@ && found == c,
            PgError::InvalidCodepoint { codepoint: n } => e@
                matches ErrorView::InvalidCodepoint { codepoint } && codepoint == n,
            _ => true,
        },
{
}

} // verus!
