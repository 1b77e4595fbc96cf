//! `quote_literal` and `quote_nullable`: texts as SQL string literals.
//!
//! A single quote inside the literal is doubled. Where the text holds a backslash the
//! literal takes the form `E'...'`, in which backslashes are doubled too.

use vstd::prelude::*;

use crate::error::{ErrorView, PgError};
use crate::text::{
    chars_of, double_char, doubled, doubled_concatenates, doubled_of_one,
    doubling_is_a_replacement, string_from_chars,
};
use crate::value::{
    is_non_text_array, map_value, mapped_value, one_text, value_result,
    ArgumentTypesView, Cell, CellFunction, CellMap, ColumnarValue, DataType, Signature, Volatility,
};

verus! {

/// The SQL literal that denotes `text`.
pub open spec fn literal(text: Seq<char>) -> Seq<char> {
    if text.contains('\\') {
        seq!['E', '\''] + doubled(doubled(text, '\''), '\\') + seq!['\'']
    } else {
        seq!['\''] + doubled(text, '\'') + seq!['\'']
    }
}

/// The SQL literal that denotes a text, or the keyword that denotes NULL.
pub open spec fn nullable_literal(v: Cell) -> Seq<char> {
    match v {
        Some(text) => literal(text),
        None => "NULL"@,
    }
}

fn has_backslash(chars: &Vec<char>) -> (b: bool)
    ensures
        b == chars@.contains('\\'),
{
    for i in 0..chars.len()
        invariant
            forall|j: int| 0 <= j < i ==> chars@[j] != '\\',
    {
        if chars[i] == '\\' {
            return true;
        }
    }
    false
}

/// Renders `s` as an SQL literal.
pub fn pg_quote_literal(s: &str) -> (r: String)
    ensures
        r@ == literal(s@),
        literal_value(r@) == Some(s@),
{
    let chars = chars_of(s);
    let mut body = double_char(&chars, '\'');
    let mut out: Vec<char> = Vec::new();
    if has_backslash(&chars) {
        body = double_char(&body, '\\');
        out.push('E');
    }
    out.push('\'');
    out.append(&mut body);
    out.push('\'');
    assert(out@ =~= literal(s@));
    proof {
        literal_denotes_its_text(s@);
    }
    string_from_chars(out)
}

/// What `quote_literal` makes of one value. NULL stays NULL.
pub open spec fn quote_literal_cell() -> CellMap {
    |v: Cell|
        match v {
            Some(text) => Ok(Some(literal(text))),
            None => Ok(None),
        }
}

/// The SQL function `quote_literal`.
#[derive(Debug, PartialEq, Eq, Hash, Structural)]
pub struct QuoteLiteralUDF;

impl CellFunction for QuoteLiteralUDF {
    open spec fn cell_map(&self) -> CellMap {
        quote_literal_cell()
    }

    open spec fn function_name(&self) -> Seq<char> {
        "quote_literal"@
    }

    fn apply(&self, v: &Option<String>) -> (r: Result<Option<String>, PgError>) {
        match v {
            Some(text) => Ok(Some(pg_quote_literal(text.as_str()))),
            None => Ok(None),
        }
    }

    fn report_name(&self) -> (name: String) {
        "quote_literal".to_string()
    }
}

impl Default for QuoteLiteralUDF {
    fn default() -> (f: Self)
        ensures
            f == QuoteLiteralUDF,
    {
        QuoteLiteralUDF
    }
}

impl QuoteLiteralUDF {
    /// The name of the function.
    pub fn name(&self) -> (name: &'static str)
        ensures
            name@ == "quote_literal"@,
    {
        "quote_literal"
    }

    /// The arguments that the function takes.
    pub fn signature(&self) -> (s: Signature)
        ensures
            s.arguments@ == ArgumentTypesView::OneOf(seq![seq![DataType::Utf8]]),
            s.volatility == Volatility::Immutable,
    {
        one_text()
    }

    /// The type of the result.
    pub fn return_type(&self, _arg_types: &[DataType]) -> (r: Result<DataType, PgError>)
        ensures
            r == Ok::<DataType, PgError>(DataType::Utf8),
    {
        Ok(DataType::Utf8)
    }

    /// Applies the function to the first argument, cell by cell where it is a column.
    pub fn invoke_with_args(&self, args: &[ColumnarValue]) -> (r: Result<ColumnarValue, PgError>)
        requires
            args@.len() > 0,
            !is_non_text_array(args@[0]@),
        ensures
            value_result(r) == mapped_value(quote_literal_cell(), "quote_literal"@, args@[0]@),
            args@[0] matches ColumnarValue::Text(Some(text)) ==> (r matches Ok(
                ColumnarValue::Text(Some(out)),
            ) && out@ == literal(text@)),
            args@[0] matches ColumnarValue::Text(None) ==> (r matches Ok(
                ColumnarValue::Text(None),
            )),
    {
        map_value(self, &args[0])
    }
}

/// What `quote_nullable` makes of one value. NULL becomes the keyword as a text.
pub open spec fn quote_nullable_cell() -> CellMap {
    |v: Cell|
        Ok(Some(nullable_literal(v)))
}

/// The SQL function `quote_nullable`.
#[derive(Debug, PartialEq, Eq, Hash, Structural)]
pub struct QuoteNullableUDF;

impl CellFunction for QuoteNullableUDF {
    open spec fn cell_map(&self) -> CellMap {
        quote_nullable_cell()
    }

    open spec fn function_name(&self) -> Seq<char> {
        "quote_nullable"@
    }

    fn apply(&self, v: &Option<String>) -> (r: Result<Option<String>, PgError>) {
        match v {
            Some(text) => Ok(Some(pg_quote_literal(text.as_str()))),
            None => Ok(Some("NULL".to_string())),
        }
    }

    fn report_name(&self) -> (name: String) {
        "quote_nullable".to_string()
    }
}

impl Default for QuoteNullableUDF {
    fn default() -> (f: Self)
        ensures
            f == QuoteNullableUDF,
    {
        QuoteNullableUDF
    }
}

impl QuoteNullableUDF {
    /// The name of the function.
    pub fn name(&self) -> (name: &'static str)
        ensures
            name@ == "quote_nullable"@,
    {
        "quote_nullable"
    }

    /// The arguments that the function takes.
    pub fn signature(&self) -> (s: Signature)
        ensures
            s.arguments@ == ArgumentTypesView::OneOf(seq![seq![DataType::Utf8]]),
            s.volatility == Volatility::Immutable,
    {
        one_text()
    }

    /// The type of the result.
    pub fn return_type(&self, _arg_types: &[DataType]) -> (r: Result<DataType, PgError>)
        ensures
            r == Ok::<DataType, PgError>(DataType::Utf8),
    {
        Ok(DataType::Utf8)
    }

    /// Applies the function to the first argument, cell by cell where it is a column.
    pub fn invoke_with_args(&self, args: &[ColumnarValue]) -> (r: Result<ColumnarValue, PgError>)
        requires
            args@.len() > 0,
            !is_non_text_array(args@[0]@),
        ensures
            value_result(r) == mapped_value(quote_nullable_cell(), "quote_nullable"@, args@[0]@),
            args@[0] matches ColumnarValue::Text(Some(text)) ==> (r matches Ok(
                ColumnarValue::Text(Some(out)),
            ) && out@ == literal(text@)),
            args@[0] matches ColumnarValue::Text(None) ==> (r matches Ok(
                ColumnarValue::Text(Some(out)),
            ) && out@ == "NULL"@),
    {
        map_value(self, &args[0])
    }
}

/// What the body of an SQL literal denotes: a doubled quote stands for one quote, and
/// in the escape form a doubled backslash for one backslash. Neither may stand alone.
pub open spec fn literal_body_value(body: Seq<char>, escapes: bool) -> Option<Seq<char>>
    decreases body.len(),
{
    if body.len() == 0 {
        Some(Seq::empty())
    } else {
        let marked = body[0] == '\'' || (escapes && body[0] == '\\');
        if marked && (body.len() < 2 || body[1] != body[0]) {
            None
        } else {
            let rest = literal_body_value(
                body.skip(
                    if marked {
                        2
                    } else {
                        1
                    },
                ),
                escapes,
            );
            match rest {
                Some(text) => Some(seq![body[0]] + text),
                None => None,
            }
        }
    }
}

/// The text that an SQL literal denotes.
pub open spec fn literal_value(text: Seq<char>) -> Option<Seq<char>> {
    let last = text.len() - 1;
    if text.len() >= 3 && text[0] == 'E' && text[1] == '\'' && text[last] == '\'' {
        literal_body_value(text.subrange(2, last), true)
    } else if text.len() >= 2 && text[0] == '\'' && text[last] == '\'' {
        literal_body_value(text.subrange(1, last), false)
    } else {
        None
    }
}

/// The body of a literal denotes the text that was written into it.
pub proof fn literal_body_denotes_its_text(text: Seq<char>, escapes: bool)
    ensures
        literal_body_value(
            if escapes {
                doubled(doubled(text, '\''), '\\')
            } else {
                doubled(text, '\'')
            },
            escapes,
        ) == Some(text),
    decreases text.len(),
{
    if text.len() == 0 {
        assert(text =~= Seq::empty());
        assert(doubled(text, '\'') =~= Seq::empty());
        assert(doubled(doubled(text, '\''), '\\') =~= Seq::empty());
    } else {
        let head = seq![text[0]];
        let rest = text.skip(1);
        assert(text =~= head + rest);
        literal_body_denotes_its_text(rest, escapes);
        doubled_concatenates(head, rest, '\'');
        doubled_of_one(text[0], '\'');
        let quoted = doubled(head, '\'');
        doubled_concatenates(quoted, doubled(rest, '\''), '\\');
        doubled_of_one(text[0], '\\');
        if text[0] == '\'' {
            assert(quoted =~= head + head);
            doubled_concatenates(head, head, '\\');
        }
        let front = if escapes {
            doubled(quoted, '\\')
        } else {
            quoted
        };
        let back = if escapes {
            doubled(doubled(rest, '\''), '\\')
        } else {
            doubled(rest, '\'')
        };
        let body = front + back;
        assert(front =~= if text[0] == '\'' || (escapes && text[0] == '\\') {
            seq![text[0], text[0]]
        } else {
            head
        });
        assert(body.skip(front.len() as int) =~= back);
        assert(body[0] == text[0]);
    }
}

/// The rendered literal denotes the text it was made of.
pub proof fn literal_denotes_its_text(text: Seq<char>)
    ensures
        literal_value(literal(text)) == Some(text),
{
    let escapes = text.contains('\\');
    literal_body_denotes_its_text(text, escapes);
    let l = literal(text);
    let last = l.len() - 1;
    if escapes {
        assert(l.subrange(2, last) =~= doubled(doubled(text, '\''), '\\'));
    } else {
        assert(l.subrange(1, last) =~= doubled(text, '\''));
    }
}

/// Different texts have different literals, and none is the keyword that stands for
/// NULL.
pub proof fn nullable_literals_are_distinct(a: Cell, b: Cell)
    ensures
        nullable_literal(a) == nullable_literal(b) ==> a == b,
{
    reveal_strlit("NULL");
    if let Some(text) = a {
        literal_denotes_its_text(text);
    }
    if let Some(text) = b {
        literal_denotes_its_text(text);
    }
}

/// `quote_nullable` differs from `quote_literal` on NULL alone.
pub proof fn quote_nullable_differs_on_null_alone(v: Cell)
    ensures
        v is Some <==> quote_nullable_cell()(v) == quote_literal_cell()(v),
{
}

/// Every character of the text stands in the literal, a quote twice; where the text holds
/// a backslash, and only there, the literal is of the escape form and has each backslash
/// twice too.
pub proof fn literals_are_written_character_by_character(text: Seq<char>)
    ensures
        !text.contains('\\') ==> literal(text) == seq!['\''] + text.flat_map(
            |c: char|
                if c == '\'' {
                    seq![c, c]
                } else {
                    seq![c]
                },
        ) + seq!['\''],
        text.contains('\\') ==> literal(text) == seq!['E', '\''] + text.flat_map(
            |c: char|
                if c == '\'' || c == '\\' {
                    seq![c, c]
                } else {
                    seq![c]
                },
        ) + seq!['\''],
{
    if text.contains('\\') {
        lemma_doubled_twice(text);
    } else {
        doubling_is_a_replacement(text, '\'');
        let plain = |c: char|
            if c == '\'' {
                seq![c, c]
            } else {
                seq![c]
            };
        let replace = |c: char|
            if c == '\'' {
                seq!['\'', '\'']
            } else {
                seq![c]
            };
        assert(text.map_values(plain) =~= text.map_values(replace));
    }
}

/// Doubling quotes and then backslashes doubles either.
proof fn lemma_doubled_twice(text: Seq<char>)
    ensures
        doubled(doubled(text, '\''), '\\') == text.flat_map(
            |c: char|
                if c == '\'' || c == '\\' {
                    seq![c, c]
                } else {
                    seq![c]
                },
        ),
    decreases text.len(),
{
    let replace = |c: char|
        if c == '\'' || c == '\\' {
            seq![c, c]
        } else {
            seq![c]
        };
    if text.len() == 0 {
        assert(doubled(text, '\'') =~= Seq::empty());
    } else {
        let rest = text.drop_last();
        let c = text.last();
        lemma_doubled_twice(rest);
        assert(text =~= rest + seq![c]);
        assert(text =~= rest.push(c));
        rest.lemma_flat_map_push(replace, c);
        doubled_concatenates(rest, seq![c], '\'');
        doubled_of_one(c, '\'');
        doubled_concatenates(doubled(rest, '\''), doubled(seq![c], '\''), '\\');
        doubled_of_one(c, '\\');
        if c == '\'' {
            assert(seq![c, c] =~= seq![c] + seq![c]);
            doubled_concatenates(seq![c], seq![c], '\\');
        }
        assert(doubled(doubled(seq![c], '\''), '\\') =~= replace(c));
    }
}

/// `quote_literal` and `quote_nullable` give the literal of every text, the empty one too;
/// of NULL the first makes NULL and the second the keyword.
pub proof fn quotes_of_a_value(text: Seq<char>)
    ensures
        quote_literal_cell()(Some(text)) == Ok::<Cell, ErrorView>(Some(literal(text))),
        quote_nullable_cell()(Some(text)) == Ok::<Cell, ErrorView>(Some(literal(text))),
        quote_literal_cell()(None) == Ok::<Cell, ErrorView>(None),
        quote_nullable_cell()(None) == Ok::<Cell, ErrorView>(Some(seq!['N', 'U', 'L', 'L'])),
{
    reveal_strlit("NULL");
    assert("NULL"@ =~= seq!['N', 'U', 'L', 'L']);
}

} // verus!
