//! `pg_client_encoding` and `to_ascii`: encodings and transliteration.
//!
//! `to_ascii` maps every character to a single ASCII character by the table of ISO
//! 8859-1: `ß` to `B`, `Æ` to `A`, `©` to `C`. Characters that have no entry, and
//! those outside ISO 8859-1, become a space.

use vstd::prelude::*;

use crate::error::{ErrorView, PgError};
use crate::text::{chars_of, string_from_chars};
use crate::value::{
    is_non_text_array, map_value, mapped_value, one_or_two_texts, value_result, ArgumentTypes,
    ArgumentTypesView, Cell, CellFunction, CellMap, ColumnarValue, DataType, Signature, ValueView,
    Volatility,
};

verus! {

/// The ASCII characters for the codes from 0x80 to 0xFF of ISO 8859-1.
pub const LATIN1_TO_ASCII: [char; 128] = [
    // 0x80 to 0x8F: control characters
    ' ', ' ', ' ', ' ', ' ', ' ', ' ', ' ', ' ', ' ', ' ', ' ', ' ', ' ', ' ', ' ',
    // 0x90 to 0x9F: control characters
    ' ', ' ', ' ', ' ', ' ', ' ', ' ', ' ', ' ', ' ', ' ', ' ', ' ', ' ', ' ', ' ',
    // 0xA0 to 0xA7
    ' ', ' ', 'c', 'L', ' ', 'Y', ' ', ' ',
    // 0xA8 to 0xAF
    '"', 'C', 'a', ' ', ' ', '-', 'R', ' ',
    // 0xB0 to 0xB7
    ' ', ' ', ' ', ' ', '\'', 'u', ' ', '.',
    // 0xB8 to 0xBF
    ',', ' ', ' ', ' ', ' ', ' ', ' ', '?',
    // 0xC0 to 0xC7
    'A', 'A', 'A', 'A', 'A', 'A', 'A', 'C',
    // 0xC8 to 0xCF
    'E', 'E', 'E', 'E', 'I', 'I', 'I', 'I',
    // 0xD0 to 0xD7
    ' ', 'N', 'O', 'O', 'O', 'O', 'O', 'x',
    // 0xD8 to 0xDF
    'O', 'U', 'U', 'U', 'U', 'Y', 'T', 'B',
    // 0xE0 to 0xE7
    'a', 'a', 'a', 'a', 'a', 'a', 'a', 'c',
    // 0xE8 to 0xEF
    'e', 'e', 'e', 'e', 'i', 'i', 'i', 'i',
    // 0xF0 to 0xF7
    ' ', 'n', 'o', 'o', 'o', 'o', 'o', '/',
    // 0xF8 to 0xFF
    'o', 'u', 'u', 'u', 'u', 'y', 't', 'y',
];

/// The ASCII character that replaces `c`.
pub open spec fn ascii_of(c: char) -> char {
    if (c as int) < 0x80 {
        c
    } else if c as int <= 0xFF {
        LATIN1_TO_ASCII@[c as int - 0x80]
    } else {
        ' '
    }
}

/// `text` in ASCII, character by character.
pub open spec fn transliterated(text: Seq<char>) -> Seq<char> {
    Seq::new(text.len(), |i: int| ascii_of(text[i]))
}

fn ascii_char(c: char) -> (r: char)
    ensures
        r == ascii_of(c),
{
    let code: u32 = c as u32;
    if code < 0x80 {
        c
    } else if code <= 0xFF {
        LATIN1_TO_ASCII[(code - 0x80) as usize]
    } else {
        ' '
    }
}

/// Transliterates a text to ASCII.
pub fn to_ascii_str(s: &str) -> (r: String)
    ensures
        r@ == transliterated(s@),
        r@.len() == s@.len(),
        forall|i: int|
            0 <= i < s@.len() ==> #[trigger] r@[i] == (if (s@[i] as int) < 0x80 {
                s@[i]
            } else if s@[i] as int <= 0xFF {
                LATIN1_TO_ASCII@[s@[i] as int - 0x80]
            } else {
                ' '
            }),
{
    let chars = chars_of(s);
    let mut out: Vec<char> = Vec::new();
    for i in 0..chars.len()
        invariant
            out@ == transliterated(chars@.take(i as int)),
    {
        out.push(ascii_char(chars[i]));
        assert(out@ =~= transliterated(chars@.take(i + 1)));
    }
    assert(chars@.take(chars@.len() as int) =~= chars@);
    string_from_chars(out)
}

/// The SQL function `pg_client_encoding`.
#[derive(Debug, PartialEq, Eq, Hash, Structural)]
pub struct PgClientEncodingUDF;

impl Default for PgClientEncodingUDF {
    fn default() -> (f: Self)
        ensures
            f == PgClientEncodingUDF,
    {
        PgClientEncodingUDF
    }
}

impl PgClientEncodingUDF {
    /// The name of the function.
    pub fn name(&self) -> (name: &'static str)
        ensures
            name@ == "pg_client_encoding"@,
    {
        "pg_client_encoding"
    }

    /// The function takes no arguments.
    pub fn signature(&self) -> (s: Signature)
        ensures
            s.arguments@ == ArgumentTypesView::Exact(Seq::empty()),
            s.volatility == Volatility::Stable,
    {
        Signature { arguments: ArgumentTypes::Exact(Vec::new()), volatility: Volatility::Stable }
    }

    /// The type of the result.
    pub fn return_type(&self, _arg_types: &[DataType]) -> (r: Result<DataType, PgError>)
        ensures
            r == Ok::<DataType, PgError>(DataType::Utf8),
    {
        Ok(DataType::Utf8)
    }

    /// Names the encoding, which is always UTF-8.
    pub fn invoke_with_args(&self, _args: &[ColumnarValue]) -> (r: Result<ColumnarValue, PgError>)
        ensures
            value_result(r) == Ok::<ValueView, ErrorView>(ValueView::Text(Some("UTF8"@))),
    {
        Ok(ColumnarValue::Text(Some("UTF8".to_string())))
    }
}

/// What `to_ascii` makes of one value. NULL stays NULL.
pub open spec fn to_ascii_cell() -> CellMap {
    |v: Cell|
        match v {
            Some(text) => Ok(Some(transliterated(text))),
            None => Ok(None),
        }
}

/// The SQL function `to_ascii`.
#[derive(Debug, PartialEq, Eq, Hash, Structural)]
pub struct ToAsciiUDF;

impl CellFunction for ToAsciiUDF {
    open spec fn cell_map(&self) -> CellMap {
        to_ascii_cell()
    }

    open spec fn function_name(&self) -> Seq<char> {
        "to_ascii"@
    }

    fn apply(&self, v: &Option<String>) -> (r: Result<Option<String>, PgError>) {
        match v {
            Some(text) => Ok(Some(to_ascii_str(text.as_str()))),
            None => Ok(None),
        }
    }

    fn report_name(&self) -> (name: String) {
        "to_ascii".to_string()
    }
}

impl Default for ToAsciiUDF {
    fn default() -> (f: Self)
        ensures
            f == ToAsciiUDF,
    {
        ToAsciiUDF
    }
}

impl ToAsciiUDF {
    /// The name of the function.
    pub fn name(&self) -> (name: &'static str)
        ensures
            name@ == "to_ascii"@,
    {
        "to_ascii"
    }

    /// The arguments that the function takes.
    pub fn signature(&self) -> (s: Signature)
        ensures
            s.arguments@ == ArgumentTypesView::OneOf(
                seq![seq![DataType::Utf8], seq![DataType::Utf8, DataType::Utf8]],
            ),
            s.volatility == Volatility::Immutable,
    {
        one_or_two_texts()
    }

    /// The type of the result.
    pub fn return_type(&self, _arg_types: &[DataType]) -> (r: Result<DataType, PgError>)
        ensures
            r == Ok::<DataType, PgError>(DataType::Utf8),
    {
        Ok(DataType::Utf8)
    }

    /// Applies the function to the first argument, cell by cell where it is a column. An
    /// encoding as second argument is accepted and changes nothing.
    pub fn invoke_with_args(&self, args: &[ColumnarValue]) -> (r: Result<ColumnarValue, PgError>)
        requires
            args@.len() > 0,
            !is_non_text_array(args@[0]@),
        ensures
            value_result(r) == mapped_value(to_ascii_cell(), "to_ascii"@, args@[0]@),
            args@[0] matches ColumnarValue::Text(Some(text)) ==> (r matches Ok(
                ColumnarValue::Text(Some(out)),
            ) && out@ == transliterated(text@)),
            args@[0] matches ColumnarValue::Text(None) ==> (r matches Ok(
                ColumnarValue::Text(None),
            )),
    {
        map_value(self, &args[0])
    }
}

/// The result is ASCII, with one character for each of the text's.
pub proof fn transliteration_is_ascii(text: Seq<char>)
    ensures
        transliterated(text).len() == text.len(),
        forall|i: int|
            0 <= i < text.len() ==> (#[trigger] transliterated(text)[i] as int) < 0x80,
{
}

/// ASCII text passes through, so a second transliteration changes nothing.
pub proof fn ascii_passes_through(text: Seq<char>)
    ensures
        (forall|i: int| 0 <= i < text.len() ==> (#[trigger] text[i] as int) < 0x80)
            ==> transliterated(text) == text,
        transliterated(transliterated(text)) == transliterated(text),
{
    let once = transliterated(text);
    transliteration_is_ascii(text);
    assert(transliterated(once) =~= once);
    if forall|i: int| 0 <= i < text.len() ==> (#[trigger] text[i] as int) < 0x80 {
        assert(once =~= text);
    }
}

/// Characters outside ISO 8859-1 become spaces.
pub proof fn other_characters_become_spaces(text: Seq<char>, i: int)
    requires
        0 <= i < text.len(),
        text[i] as int > 0xFF,
    ensures
        transliterated(text)[i] == ' ',
{
}

/// Every character of ISO 8859-1 outside ASCII is replaced by its entry in the table,
/// wherever it stands; ASCII characters stay.
pub proof fn latin1_characters_are_looked_up(text: Seq<char>, i: int)
    requires
        0 <= i < text.len(),
    ensures
        (text[i] as int) < 0x80 ==> transliterated(text)[i] == text[i],
        0x80 <= text[i] as int <= 0xFF ==> transliterated(text)[i]
            == LATIN1_TO_ASCII@[text[i] as int - 0x80],
{
}

/// A capital with an accent becomes the capital without it; two letters in one become
/// the first of them, and eth, which has no entry, a space.
pub proof fn capitals_lose_their_accents(text: Seq<char>, i: int)
    requires
        0 <= i < text.len(),
    ensures
        ({
            let code = text[i] as int;
            let c = transliterated(text)[i];
            &&& 0xC0 <= code <= 0xC6 ==> c == 'A'
            &&& code == 0xC7 ==> c == 'C'
            &&& 0xC8 <= code <= 0xCB ==> c == 'E'
            &&& 0xCC <= code <= 0xCF ==> c == 'I'
            &&& code == 0xD0 ==> c == ' '
            &&& code == 0xD1 ==> c == 'N'
            &&& 0xD2 <= code <= 0xD6 || code == 0xD8 ==> c == 'O'
            &&& 0xD9 <= code <= 0xDC ==> c == 'U'
            &&& code == 0xDD ==> c == 'Y'
            &&& code == 0xDE ==> c == 'T'
            &&& code == 0xDF ==> c == 'B'
        }),
{
}

/// A small letter becomes the small form of what its capital becomes; `y` with diaeresis,
/// whose capital is elsewhere, becomes `y`.
pub proof fn small_letters_follow_their_capitals(text: Seq<char>, capitals: Seq<char>, i: int)
    requires
        0 <= i < text.len(),
        i < capitals.len(),
    ensures
        0xE0 <= text[i] as int <= 0xFE && text[i] as int != 0xF0 && text[i] as int != 0xF7
            && capitals[i] as int == text[i] as int - 0x20 ==> transliterated(text)[i] as int
            == transliterated(capitals)[i] as int + 0x20,
        text[i] as int == 0xF0 ==> transliterated(text)[i] == ' ',
        text[i] as int == 0xFF ==> transliterated(text)[i] == 'y',
{
}

/// The signs of ISO 8859-1 that resemble an ASCII character become it; the other signs and
/// the control characters become spaces.
pub proof fn signs_become_what_they_resemble(text: Seq<char>, i: int)
    requires
        0 <= i < text.len(),
        0x80 <= text[i] as int <= 0xBF || text[i] as int == 0xD7 || text[i] as int == 0xF7,
    ensures
        ({
            let code = text[i] as int;
            transliterated(text)[i] == (if code == 0xA2 {
                'c'
            } else if code == 0xA3 {
                'L'
            } else if code == 0xA5 {
                'Y'
            } else if code == 0xA8 {
                '"'
            } else if code == 0xA9 {
                'C'
            } else if code == 0xAA {
                'a'
            } else if code == 0xAD {
                '-'
            } else if code == 0xAE {
                'R'
            } else if code == 0xB4 {
                '\''
            } else if code == 0xB5 {
                'u'
            } else if code == 0xB7 {
                '.'
            } else if code == 0xB8 {
                ','
            } else if code == 0xBF {
                '?'
            } else if code == 0xD7 {
                'x'
            } else if code == 0xF7 {
                '/'
            } else {
                ' '
            })
        }),
{
}

/// `to_ascii` transliterates every text, the empty one too, and leaves NULL.
pub proof fn to_ascii_of_a_value(text: Seq<char>)
    ensures
        mapped_value(to_ascii_cell(), "to_ascii"@, ValueView::Text(Some(text))) == Ok::<
            ValueView,
            ErrorView,
        >(ValueView::Text(Some(transliterated(text)))),
        mapped_value(to_ascii_cell(), "to_ascii"@, ValueView::Text(None)) == Ok::<
            ValueView,
            ErrorView,
        >(ValueView::Text(None)),
{
}

} // verus!
