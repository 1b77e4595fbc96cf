//! `format`, also called `sprintf`: text from a format string and arguments.
//!
//! A directive is `%[position][flags][width]` and a conversion: `s` for the argument as
//! it is (NULL gives nothing), `I` for an SQL identifier, `L` for an SQL literal, which
//! is that of `quote_nullable`. The position `n$` picks the argument; without one the
//! next automatic argument is taken. The flag `-` puts the padding to the right. The
//! width is a decimal number, or `*` for the next automatic argument, where a negative
//! number acts as the flag does. `%%` stands for a percent sign.

use vstd::prelude::*;

use crate::error::{text_result, ErrorView, PgError};
use crate::number::{
    all_digits, is_digit, is_digit_char, numeral_value, parse_decimal, parse_signed,
    signed_decimal, signed_text_reads_back, signed_value, write_signed,
};
use crate::quote::{
    literal_body_denotes_its_text, literal_denotes_its_text, literal_value, nullable_literal,
    pg_quote_literal,
};
use crate::text::{
    chars_of, double_char, doubled, doubled_concatenates, doubled_of_one,
    doubling_is_a_replacement, string_from_chars,
};
use crate::value::{
    cell_of, column_of, copy_cell, value_result, values_of, ArgumentTypes, ArgumentTypesView, Cell,
    ColumnarValue, DataType, Signature, ValueView, Volatility,
};

verus! {

/// An identifier that needs no quotes: lower-case ASCII letters, digits and
/// underscores, not starting with a digit. Reserved words are not told apart.
pub open spec fn is_bare_identifier(text: Seq<char>) -> bool {
    &&& text.len() > 0
    &&& !is_digit(text[0])
    &&& forall|i: int|
        0 <= i < text.len() ==> 'a' <= #[trigger] text[i] <= 'z' || is_digit(text[i]) || text[i]
            == '_'
}

/// The SQL identifier that denotes `text`.
pub open spec fn identifier(text: Seq<char>) -> Seq<char> {
    if is_bare_identifier(text) {
        text
    } else {
        seq!['"'] + doubled(text, '"') + seq!['"']
    }
}

/// The SQL literal without escapes that denotes `text`: quotes are doubled, backslashes
/// stay as they are.
pub open spec fn plain_literal(text: Seq<char>) -> Seq<char> {
    seq!['\''] + doubled(text, '\'') + seq!['\'']
}

/// Renders `s` as an SQL identifier.
pub fn pg_quote_ident(s: &str) -> (r: String)
    ensures
        r@ == identifier(s@),
{
    let chars = chars_of(s);
    if is_bare(&chars) {
        return string_from_chars(chars);
    }
    let mut body = double_char(&chars, '"');
    let mut out: Vec<char> = Vec::new();
    out.push('"');
    out.append(&mut body);
    out.push('"');
    assert(out@ =~= identifier(s@));
    string_from_chars(out)
}

fn is_bare(chars: &Vec<char>) -> (b: bool)
    ensures
        b == is_bare_identifier(chars@),
{
    if chars.len() == 0 || is_digit_char(chars[0]) {
        return false;
    }
    for i in 0..chars.len()
        invariant
            forall|j: int|
                0 <= j < i ==> 'a' <= #[trigger] chars@[j] <= 'z' || is_digit(chars@[j])
                    || chars@[j] == '_',
    {
        let c = chars[i];
        if !(('a' <= c && c <= 'z') || is_digit_char(c) || c == '_') {
            return false;
        }
    }
    true
}

/// Renders `s` as an SQL literal without escapes.
pub fn pg_quote_literal_value(s: &str) -> (r: String)
    ensures
        r@ == plain_literal(s@),
{
    let mut body = double_char(&chars_of(s), '\'');
    let mut out: Vec<char> = Vec::new();
    out.push('\'');
    out.append(&mut body);
    out.push('\'');
    assert(out@ =~= plain_literal(s@));
    string_from_chars(out)
}

/// What a conversion makes of an argument.
pub open spec fn converted(conversion: char, v: Cell) -> Result<Seq<char>, ErrorView> {
    let text = match v {
        Some(text) => text,
        None => Seq::empty(),
    };
    if conversion == 's' {
        Ok(text)
    } else if conversion == 'I' {
        Ok(identifier(text))
    } else if conversion == 'L' {
        Ok(nullable_literal(v))
    } else {
        Err(ErrorView::UnrecognizedSpecifier { specifier: conversion })
    }
}

/// Applies a conversion to an argument.
pub fn format_spec(spec: char, val: Option<&String>) -> (r: Result<String, PgError>)
    ensures
        text_result(r) == converted(
            spec,
            match val {
                Some(text) => Some(text@),
                None => None,
            },
        ),
        spec == 's' ==> (val matches Some(text) ==> (r matches Ok(out) && out@ == text@)),
        spec == 's' && val is None ==> (r matches Ok(out) && out@.len() == 0),
{
    if spec == 's' {
        match val {
            Some(text) => Ok(text.clone()),
            None => Ok(String::new()),
        }
    } else if spec == 'I' {
        match val {
            Some(text) => Ok(pg_quote_ident(text.as_str())),
            None => Ok(pg_quote_ident(String::new().as_str())),
        }
    } else if spec == 'L' {
        match val {
            Some(text) => Ok(pg_quote_literal(text.as_str())),
            None => Ok("NULL".to_string()),
        }
    } else {
        Err(PgError::UnrecognizedSpecifier { specifier: spec })
    }
}

/// How many decimal digits `text` starts with.
pub open spec fn digit_run(text: Seq<char>) -> nat
    decreases text.len(),
{
    if text.len() == 0 || !is_digit(text[0]) {
        0
    } else {
        1 + digit_run(text.skip(1))
    }
}

/// How many `-` characters `text` starts with.
pub open spec fn dash_run(text: Seq<char>) -> nat
    decreases text.len(),
{
    if text.len() == 0 || text[0] != '-' {
        0
    } else {
        1 + dash_run(text.skip(1))
    }
}

/// The width that a directive asks for.
pub enum WidthView {
    Unset,
    Digits(Seq<char>),
    Star,
}

/// A directive, as it is written.
pub struct DirectiveView {
    /// The digits before `$`.
    pub position: Option<Seq<char>>,
    /// Whether the flag `-` is there.
    pub left: bool,
    pub width: WidthView,
    /// `None` where the format string ends before it.
    pub conversion: Option<char>,
    /// How many characters the directive has after its `%`.
    pub len: nat,
}

/// Where the flags start, in the text behind a `%`: behind the leading digits, and
/// behind the `$` that makes them a position.
pub open spec fn flags_at(text: Seq<char>) -> int {
    digit_run(text) + if has_position(text) {
        1int
    } else {
        0
    }
}

/// The leading digits are a position.
pub open spec fn has_position(text: Seq<char>) -> bool {
    0 < digit_run(text) < text.len() && text[digit_run(text) as int] == '$'
}

/// Where the flags end.
pub open spec fn width_at(text: Seq<char>) -> int {
    flags_at(text) + dash_run(text.skip(flags_at(text)))
}

/// The directive that stands in `text`, the text behind a `%`. Leading digits that are
/// no position are the width.
pub open spec fn directive(text: Seq<char>) -> DirectiveView {
    let lead = digit_run(text) as int;
    let at = width_at(text);
    let fresh = digit_run(text.skip(at)) as int;
    let (width, end) = if lead > 0 && !has_position(text) {
        (WidthView::Digits(text.take(lead)), at)
    } else if fresh > 0 {
        (WidthView::Digits(text.subrange(at, at + fresh)), at + fresh)
    } else if at < text.len() && text[at] == '*' {
        (WidthView::Star, at + 1)
    } else {
        (WidthView::Unset, at)
    };
    DirectiveView {
        position: if has_position(text) {
            Some(text.take(lead))
        } else {
            None
        },
        left: dash_run(text.skip(flags_at(text))) > 0,
        width,
        conversion: if end < text.len() {
            Some(text[end])
        } else {
            None
        },
        len: (end + 1) as nat,
    }
}

/// The index of the argument that a position names.
pub open spec fn position_index(position: Option<Seq<char>>) -> Result<Option<nat>, ErrorView> {
    match position {
        None => Ok(None),
        Some(digits) => {
            let n = numeral_value(digits, 10);
            if n > usize::MAX {
                Err(ErrorView::InvalidPositionalIndex { digits })
            } else if n == 0 {
                Err(ErrorView::ZeroPositionalIndex)
            } else {
                Ok(Some((n - 1) as nat))
            }
        },
    }
}

/// The room that a field takes, and on which side the padding goes.
pub struct Room {
    pub width: nat,
    pub left: bool,
    /// The next automatic argument.
    pub next: nat,
}

/// The room that a directive asks for when `next` is the next automatic argument. A
/// number that does not fit in a machine word asks for none.
pub open spec fn field_room(d: DirectiveView, args: Seq<Cell>, next: nat) -> Result<
    Room,
    ErrorView,
> {
    match d.width {
        WidthView::Unset => Ok(Room { width: 0, left: d.left, next }),
        WidthView::Digits(digits) => {
            let n = numeral_value(digits, 10);
            Ok(
                Room {
                    width: if n <= usize::MAX {
                        n
                    } else {
                        0
                    },
                    left: d.left,
                    next,
                },
            )
        },
        WidthView::Star => if next >= args.len() {
            Err(ErrorView::MissingWidthArgument)
        } else {
            match args[next as int] {
                None => Err(ErrorView::NullWidthArgument),
                Some(text) => match signed_value(text) {
                    None => Err(ErrorView::InvalidWidth { text }),
                    Some(n) => Ok(
                        Room {
                            width: (if n < 0 {
                                -n
                            } else {
                                n
                            }) as usize as nat,
                            left: d.left || n < 0,
                            next: next + 1,
                        },
                    ),
                },
            }
        },
    }
}

pub open spec fn spaces(n: nat) -> Seq<char> {
    Seq::new(n, |i: int| ' ')
}

/// `text` with spaces on one side up to the width; longer text as it is.
pub open spec fn padded(text: Seq<char>, width: nat, left: bool) -> Seq<char> {
    if width <= text.len() {
        text
    } else if left {
        text + spaces((width - text.len()) as nat)
    } else {
        spaces((width - text.len()) as nat) + text
    }
}

/// What a directive writes, and the next automatic argument after it.
pub open spec fn field(d: DirectiveView, args: Seq<Cell>, next: nat) -> Result<
    (Seq<char>, nat),
    ErrorView,
> {
    match position_index(d.position) {
        Err(e) => Err(e),
        Ok(position) => match field_room(d, args, next) {
            Err(e) => Err(e),
            Ok(room) => match d.conversion {
                None => Err(ErrorView::IncompleteSpecifier),
                Some(conversion) => {
                    let (index, then) = match position {
                        Some(index) => (index, room.next),
                        None => (room.next, room.next + 1),
                    };
                    if index >= args.len() {
                        Err(ErrorView::TooFewArguments { index, supplied: args.len() })
                    } else {
                        match converted(conversion, args[index as int]) {
                            Err(e) => Err(e),
                            Ok(text) => Ok((padded(text, room.width, room.left), then)),
                        }
                    }
                },
            },
        },
    }
}

/// A formatted remainder behind what was written before it.
pub open spec fn behind(
    written: Seq<char>,
    rest: Result<(Seq<char>, nat), ErrorView>,
) -> Result<(Seq<char>, nat), ErrorView> {
    match rest {
        Ok((text, next)) => Ok((written + text, next)),
        Err(e) => Err(e),
    }
}

/// What the start of a format string writes.
pub struct Piece {
    pub text: Seq<char>,
    /// How many characters of the format string it takes.
    pub len: nat,
    /// The next automatic argument after it.
    pub next: nat,
}

/// The first piece of a format string that is not empty: a directive, a doubled percent
/// sign or any other character.
pub open spec fn first_piece(fmt: Seq<char>, args: Seq<Cell>, next: nat) -> Result<
    Piece,
    ErrorView,
> {
    if fmt[0] != '%' {
        Ok(Piece { text: seq![fmt[0]], len: 1, next })
    } else if fmt.len() > 1 && fmt[1] == '%' {
        Ok(Piece { text: seq!['%'], len: 2, next })
    } else {
        let d = directive(fmt.skip(1));
        match field(d, args, next) {
            Err(e) => Err(e),
            Ok((text, then)) => Ok(Piece { text, len: 1 + d.len, next: then }),
        }
    }
}

/// What a format string writes when `next` is the next automatic argument, and the next
/// one after it; or the error of the first directive that has one.
pub open spec fn format_from(fmt: Seq<char>, args: Seq<Cell>, next: nat) -> Result<
    (Seq<char>, nat),
    ErrorView,
>
    decreases fmt.len(),
{
    if fmt.len() == 0 {
        Ok((Seq::empty(), next))
    } else {
        match first_piece(fmt, args, next) {
            Err(e) => Err(e),
            Ok(piece) => behind(
                piece.text,
                format_from(fmt.skip(piece.len as int), args, piece.next),
            ),
        }
    }
}

/// The text that a format string gives with these arguments.
pub open spec fn formatted(fmt: Seq<char>, args: Seq<Cell>) -> Result<Seq<char>, ErrorView> {
    match format_from(fmt, args, 0) {
        Ok((text, _)) => Ok(text),
        Err(e) => Err(e),
    }
}

enum Width {
    Unset,
    Digits(Vec<char>),
    Star,
}

struct Directive {
    position: Option<Vec<char>>,
    left: bool,
    width: Width,
    conversion: Option<char>,
    /// How many characters stand between the `%` and the conversion.
    end: usize,
}

impl Directive {
    spec fn content(&self) -> DirectiveView {
        DirectiveView {
            position: match self.position {
                Some(digits) => Some(digits@),
                None => None,
            },
            left: self.left,
            width: match self.width {
                Width::Unset => WidthView::Unset,
                Width::Digits(digits) => WidthView::Digits(digits@),
                Width::Star => WidthView::Star,
            },
            conversion: self.conversion,
            len: self.end as nat + 1,
        }
    }
}

proof fn lemma_digit_run(text: Seq<char>)
    ensures
        digit_run(text) <= text.len(),
        all_digits(text.take(digit_run(text) as int)),
        digit_run(text) < text.len() ==> !is_digit(text[digit_run(text) as int]),
    decreases text.len(),
{
    if text.len() > 0 && is_digit(text[0]) {
        let rest = text.skip(1);
        lemma_digit_run(rest);
        let run = text.take(digit_run(text) as int);
        assert forall|i: int| 0 <= i < run.len() implies is_digit(#[trigger] run[i]) by {
            if i > 0 {
                assert(run[i] == rest.take(digit_run(rest) as int)[i - 1]);
            }
        }
    }
}

proof fn lemma_dash_run(text: Seq<char>)
    ensures
        dash_run(text) <= text.len(),
        dash_run(text) < text.len() ==> text[dash_run(text) as int] != '-',
    decreases text.len(),
{
    if text.len() > 0 && text[0] == '-' {
        lemma_dash_run(text.skip(1));
    }
}

fn count_digits(text: &[char], start: usize) -> (n: usize)
    requires
        start <= text@.len(),
    ensures
        n == digit_run(text@.skip(start as int)),
        n <= text@.len() - start,
{
    let mut n: usize = 0;
    while n < text.len() - start && is_digit_char(text[start + n])
        invariant
            start <= text@.len(),
            n <= text@.len() - start,
            n + digit_run(text@.skip(start + n)) == digit_run(text@.skip(start as int)),
        decreases text@.len() - n,
    {
        assert(text@.skip(start + n).skip(1) =~= text@.skip(start + n + 1));
        n = n + 1;
    }
    n
}

fn count_dashes(text: &[char], start: usize) -> (n: usize)
    requires
        start <= text@.len(),
    ensures
        n == dash_run(text@.skip(start as int)),
        n <= text@.len() - start,
{
    let mut n: usize = 0;
    while n < text.len() - start && text[start + n] == '-'
        invariant
            start <= text@.len(),
            n <= text@.len() - start,
            n + dash_run(text@.skip(start + n)) == dash_run(text@.skip(start as int)),
        decreases text@.len() - n,
    {
        assert(text@.skip(start + n).skip(1) =~= text@.skip(start + n + 1));
        n = n + 1;
    }
    n
}

/// Reads the directive behind a `%`.
#[verifier::rlimit(30)]
fn read_directive(text: &[char]) -> (d: Directive)
    ensures
        d.content() == directive(text@),
        d.end <= text@.len(),
        d.position matches Some(digits) ==> all_digits(digits@),
        d.width matches Width::Digits(digits) ==> all_digits(digits@),
{
    let len: usize = text.len();
    assert(text@.skip(0) =~= text@);
    let lead: usize = count_digits(text, 0);
    let positioned: bool = 0 < lead && lead < len && text[lead] == '$';
    let flags: usize = if positioned {
        lead + 1
    } else {
        lead
    };
    let dashes: usize = count_dashes(text, flags);
    let at: usize = flags + dashes;
    let fresh: usize = count_digits(text, at);
    proof {
        lemma_digit_run(text@);
        lemma_digit_run(text@.skip(at as int));
        assert(text@.subrange(0, lead as int) =~= text@.take(lead as int));
        assert(text@.subrange(at as int, at + fresh) =~= text@.skip(at as int).take(fresh as int));
    }
    let lead_digits = vstd::slice::slice_to_vec(vstd::slice::slice_subrange(text, 0, lead));
    let (width, end): (Width, usize) = if lead > 0 && !positioned {
        (Width::Digits(vstd::slice::slice_to_vec(vstd::slice::slice_subrange(text, 0, lead))), at)
    } else if fresh > 0 {
        (
            Width::Digits(
                vstd::slice::slice_to_vec(vstd::slice::slice_subrange(text, at, at + fresh)),
            ),
            at + fresh,
        )
    } else if at < len && text[at] == '*' {
        (Width::Star, at + 1)
    } else {
        (Width::Unset, at)
    };
    let position = if positioned {
        Some(lead_digits)
    } else {
        None
    };
    let conversion = if end < len {
        Some(text[end])
    } else {
        None
    };
    Directive { position, left: dashes > 0, width, conversion, end }
}

/// The index of the argument that a position names.
fn find_position(position: &Option<Vec<char>>) -> (r: Result<Option<usize>, PgError>)
    requires
        position matches Some(digits) ==> all_digits(digits@),
    ensures
        ({
            let expected = position_index(
                match *position {
                    Some(digits) => Some(digits@),
                    None => None,
                },
            );
            match r {
                Ok(Some(index)) => expected == Ok::<Option<nat>, ErrorView>(Some(index as nat)),
                Ok(None) => expected == Ok::<Option<nat>, ErrorView>(None),
                Err(e) => expected == Err::<Option<nat>, ErrorView>(e@),
            }
        }),
{
    match position {
        None => Ok(None),
        Some(digits) => match parse_decimal(digits.as_slice()) {
            Some(n) if n <= usize::MAX as u64 => if n == 0 {
                Err(PgError::ZeroPositionalIndex)
            } else {
                Ok(Some((n - 1) as usize))
            },
            _ => Err(
                PgError::InvalidPositionalIndex {
                    digits: string_from_chars(vstd::slice::slice_to_vec(digits.as_slice())),
                },
            ),
        },
    }
}

/// The room that a directive asks for: its width, whether the padding goes to the right,
/// and the next automatic argument.
fn find_room(d: &Directive, args: &[Option<String>], next: usize) -> (r: Result<
    (usize, bool, usize),
    PgError,
>)
    requires
        next <= args@.len(),
        d.width matches Width::Digits(digits) ==> all_digits(digits@),
    ensures
        match r {
            Ok((width, left, then)) => field_room(d.content(), column_of(args@), next as nat) == Ok::<
                Room,
                ErrorView,
            >(Room { width: width as nat, left, next: then as nat }) && then <= args@.len(),
            Err(e) => field_room(d.content(), column_of(args@), next as nat) == Err::<
                Room,
                ErrorView,
            >(e@),
        },
{
    match &d.width {
        Width::Unset => Ok((0, d.left, next)),
        Width::Digits(digits) => match parse_decimal(digits.as_slice()) {
            Some(n) if n <= usize::MAX as u64 => Ok((n as usize, d.left, next)),
            _ => Ok((0, d.left, next)),
        },
        Width::Star => {
            if next >= args.len() {
                return Err(PgError::MissingWidthArgument);
            }
            match &args[next] {
                None => Err(PgError::NullWidthArgument),
                Some(text) => match parse_signed(chars_of(text.as_str()).as_slice()) {
                    None => Err(PgError::InvalidWidth { text: text.clone() }),
                    Some(n) => if n < 0 {
                        let magnitude: u64 = (-(n + 1)) as u64 + 1;
                        Ok((magnitude as usize, true, next + 1))
                    } else {
                        Ok((n as usize, d.left, next + 1))
                    },
                },
            }
        },
    }
}

fn push_spaces(out: &mut Vec<char>, n: usize)
    ensures
        final(out)@ == old(out)@ + spaces(n as nat),
{
    for i in 0..n
        invariant
            out@ == old(out)@ + spaces(i as nat),
    {
        out.push(' ');
        assert(out@ =~= old(out)@ + spaces(i as nat + 1));
    }
}

/// Writes `text`, padded.
fn push_padded(out: &mut Vec<char>, text: &str, width: usize, left: bool)
    ensures
        final(out)@ == old(out)@ + padded(text@, width as nat, left),
{
    let mut chars = chars_of(text);
    if width <= chars.len() {
        out.append(&mut chars);
    } else {
        let fill: usize = width - chars.len();
        if left {
            out.append(&mut chars);
            push_spaces(out, fill);
        } else {
            push_spaces(out, fill);
            out.append(&mut chars);
        }
    }
    assert(out@ =~= old(out)@ + padded(text@, width as nat, left));
}

/// Writes what a directive asks for; gives the next automatic argument.
fn write_field(out: &mut Vec<char>, d: &Directive, args: &[Option<String>], next: usize) -> (r:
    Result<usize, PgError>)
    requires
        next <= args@.len(),
        d.position matches Some(digits) ==> all_digits(digits@),
        d.width matches Width::Digits(digits) ==> all_digits(digits@),
    ensures
        match r {
            Ok(then) => {
                &&& then <= args@.len()
                &&& field(d.content(), column_of(args@), next as nat) matches Ok((text, n))
                &&& n == then
                &&& final(out)@ == old(out)@ + text
            },
            Err(e) => field(d.content(), column_of(args@), next as nat) == Err::<
                (Seq<char>, nat),
                ErrorView,
            >(e@),
        },
{
    let position = match find_position(&d.position) {
        Ok(position) => position,
        Err(e) => {
            return Err(e);
        },
    };
    let (width, left, after_width) = match find_room(d, args, next) {
        Ok(room) => room,
        Err(e) => {
            return Err(e);
        },
    };
    let conversion = match d.conversion {
        Some(conversion) => conversion,
        None => {
            return Err(PgError::IncompleteSpecifier);
        },
    };
    let index: usize = match position {
        Some(index) => index,
        None => after_width,
    };
    let supplied: usize = args.len();
    if index >= supplied {
        return Err(PgError::TooFewArguments { index, supplied });
    }
    let then: usize = match position {
        Some(_) => after_width,
        None => after_width + 1,
    };
    match format_spec(conversion, args[index].as_ref()) {
        Err(e) => Err(e),
        Ok(text) => {
            push_padded(out, text.as_str(), width, left);
            Ok(then)
        },
    }
}

/// Writes the first piece of what is left of a format string; gives its length there and
/// the next automatic argument.
fn write_piece(out: &mut Vec<char>, rest: &[char], args: &[Option<String>], next: usize) -> (r:
    Result<(usize, usize), PgError>)
    requires
        rest@.len() > 0,
        next <= args@.len(),
    ensures
        match r {
            Ok((len, then)) => {
                &&& 0 < len <= rest@.len()
                &&& then <= args@.len()
                &&& first_piece(rest@, column_of(args@), next as nat) matches Ok(piece)
                &&& piece.len == len
                &&& piece.next == then
                &&& final(out)@ == old(out)@ + piece.text
            },
            Err(e) => first_piece(rest@, column_of(args@), next as nat) == Err::<Piece, ErrorView>(
                e@,
            ),
        },
{
    let c = rest[0];
    if c != '%' {
        out.push(c);
        return Ok((1, next));
    }
    if rest.len() > 1 && rest[1] == '%' {
        out.push('%');
        return Ok((2, next));
    }
    let tail = vstd::slice::slice_subrange(rest, 1, rest.len());
    assert(tail@ =~= rest@.skip(1));
    let d = read_directive(tail);
    match write_field(out, &d, args, next) {
        Err(e) => Err(e),
        Ok(then) => Ok((d.end + 2, then)),
    }
}

/// Formats the arguments by a format string.
pub fn pg_format(fmt: &str, args: &[Option<String>]) -> (r: Result<String, PgError>)
    ensures
        text_result(r) == formatted(fmt@, column_of(args@)),
{
    let chars = chars_of(fmt);
    let ghost cells = column_of(args@);
    let mut out: Vec<char> = Vec::new();
    let mut next: usize = 0;
    let mut i: usize = 0;
    proof {
        assert(chars@.skip(0) =~= chars@);
        if let Ok((text, n)) = format_from(chars@, cells, 0) {
            assert(out@ + text =~= text);
        }
    }
    while i < chars.len()
        invariant
            chars@ == fmt@,
            cells == column_of(args@),
            i <= chars@.len(),
            next <= args@.len(),
            format_from(chars@, cells, 0) == behind(
                out@,
                format_from(chars@.skip(i as int), cells, next as nat),
            ),
        decreases chars@.len() - i,
    {
        let rest = vstd::slice::slice_subrange(chars.as_slice(), i, chars.len());
        assert(rest@ =~= chars@.skip(i as int));
        let ghost before = out@;
        match write_piece(&mut out, rest, args, next) {
            Err(e) => {
                return Err(e);
            },
            Ok((len, then)) => {
                proof {
                    let piece = first_piece(rest@, cells, next as nat)->Ok_0;
                    assert(rest@.skip(len as int) =~= chars@.skip(i + len));
                    if let Ok((text, n)) = format_from(chars@.skip(i + len), cells, then as nat) {
                        assert(before + (piece.text + text) =~= out@ + text);
                    }
                }
                i = i + len;
                next = then;
            },
        }
    }
    assert(out@ + Seq::<char>::empty() =~= out@);
    Ok(string_from_chars(out))
}

/// The text of an argument of `format`: NULL of any type is NULL, and so is a column.
pub open spec fn argument_text(v: ValueView) -> Cell {
    match v {
        ValueView::Text(cell) => cell,
        ValueView::LargeText(cell) => cell,
        ValueView::Int32(Some(n)) => Some(signed_decimal(n as int)),
        ValueView::Int64(Some(n)) => Some(signed_decimal(n as int)),
        ValueView::Boolean(Some(b)) => Some(
            if b {
                "true"@
            } else {
                "false"@
            },
        ),
        ValueView::Other(cell) => cell,
        _ => None,
    }
}

/// The text of an argument of `format`.
pub fn scalar_to_opt_string(v: &ColumnarValue) -> (r: Option<String>)
    ensures
        cell_of(r) == argument_text(v@),
{
    match v {
        ColumnarValue::Text(cell) => copy_cell(cell),
        ColumnarValue::LargeText(cell) => copy_cell(cell),
        ColumnarValue::Int32(Some(n)) => Some(string_from_chars(write_signed(*n as i64))),
        ColumnarValue::Int64(Some(n)) => Some(string_from_chars(write_signed(*n))),
        ColumnarValue::Boolean(Some(b)) => Some(
            if *b {
                "true".to_string()
            } else {
                "false".to_string()
            },
        ),
        ColumnarValue::Other(cell) => copy_cell(cell),
        _ => None,
    }
}

/// The texts of all arguments but the first.
pub open spec fn argument_texts(args: Seq<ValueView>) -> Seq<Cell> {
    Seq::new((args.len() - 1) as nat, |i: int| argument_text(args[i + 1]))
}

/// What a call of `format` gives.
pub open spec fn format_call(args: Seq<ValueView>) -> Result<ValueView, ErrorView> {
    if args.len() == 0 {
        Err(ErrorView::MissingFormatString)
    } else {
        match args[0] {
            ValueView::Text(Some(fmt)) => match formatted(fmt, argument_texts(args)) {
                Ok(text) => Ok(ValueView::Text(Some(text))),
                Err(e) => Err(e),
            },
            ValueView::Text(None) => Ok(ValueView::Text(None)),
            _ => Err(ErrorView::FormatStringNotText),
        }
    }
}

/// The SQL function `format`.
#[derive(Debug, PartialEq, Eq, Hash, Structural)]
pub struct FormatUDF;

impl Default for FormatUDF {
    fn default() -> (f: Self)
        ensures
            f == FormatUDF,
    {
        FormatUDF
    }
}

impl FormatUDF {
    /// The name of the function.
    pub fn name(&self) -> (name: &'static str)
        ensures
            name@ == "format"@,
    {
        "format"
    }

    /// The other names of the function.
    pub fn aliases(&self) -> (names: Vec<&'static str>)
        ensures
            names@.len() == 1,
            names@[0]@ == "sprintf"@,
    {
        vec!["sprintf"]
    }

    /// The function takes arguments of any type.
    pub fn signature(&self) -> (s: Signature)
        ensures
            s.arguments@ == ArgumentTypesView::VariadicAny,
            s.volatility == Volatility::Immutable,
    {
        Signature { arguments: ArgumentTypes::VariadicAny, volatility: Volatility::Immutable }
    }

    /// The type of the result.
    pub fn return_type(&self, _arg_types: &[DataType]) -> (r: Result<DataType, PgError>)
        ensures
            r == Ok::<DataType, PgError>(DataType::Utf8),
    {
        Ok(DataType::Utf8)
    }

    /// Formats all arguments but the first by the first.
    pub fn invoke_with_args(&self, args: &[ColumnarValue]) -> (r: Result<ColumnarValue, PgError>)
        ensures
            value_result(r) == format_call(values_of(args@)),
    {
        if args.len() == 0 {
            return Err(PgError::MissingFormatString);
        }
        let fmt = match &args[0] {
            ColumnarValue::Text(Some(fmt)) => fmt,
            ColumnarValue::Text(None) => {
                return Ok(ColumnarValue::Text(None));
            },
            _ => {
                return Err(PgError::FormatStringNotText);
            },
        };
        let mut texts: Vec<Option<String>> = Vec::new();
        for i in 1..args.len()
            invariant
                texts@.len() == i - 1,
                forall|j: int|
                    0 <= j < texts@.len() ==> cell_of(#[trigger] texts@[j]) == argument_text(
                        args@[j + 1]@,
                    ),
        {
            texts.push(scalar_to_opt_string(&args[i]));
        }
        assert(column_of(texts@) =~= argument_texts(values_of(args@)));
        match pg_format(fmt.as_str(), texts.as_slice()) {
            Ok(text) => Ok(ColumnarValue::Text(Some(text))),
            Err(e) => Err(e),
        }
    }
}

/// A field is as wide as its width or its text, whichever is more; it holds the text,
/// never cut, with spaces beside it on one side.
pub proof fn padding_keeps_the_text(text: Seq<char>, width: nat, left: bool)
    ensures
        padded(text, width, left).len() == (if width > text.len() {
            width
        } else {
            text.len()
        }),
        left ==> text.is_prefix_of(padded(text, width, left)) && padded(text, width, left).skip(
            text.len() as int,
        ) == spaces((padded(text, width, left).len() - text.len()) as nat),
        !left ==> text.is_suffix_of(padded(text, width, left)) && padded(text, width, left).take(
            padded(text, width, left).len() - text.len(),
        ) == spaces((padded(text, width, left).len() - text.len()) as nat),
        left ==> forall|i: int|
            text.len() <= i < width ==> #[trigger] padded(text, width, left)[i] == ' ',
        !left ==> forall|i: int|
            0 <= i < width - text.len() ==> #[trigger] padded(text, width, left)[i] == ' ',
{
    let p = padded(text, width, left);
    let fill = (p.len() - text.len()) as nat;
    if left {
        assert(text =~= p.take(text.len() as int));
        assert(p.skip(text.len() as int) =~= spaces(fill));
    } else {
        assert(text =~= p.skip(p.len() - text.len()));
        assert(p.take(p.len() - text.len()) =~= spaces(fill));
    }
}

proof fn lemma_digit_run_before(text: Seq<char>, more: Seq<char>)
    requires
        digit_run(text) < text.len(),
    ensures
        digit_run(text + more) == digit_run(text),
    decreases text.len(),
{
    if is_digit(text[0]) {
        assert((text + more).skip(1) =~= text.skip(1) + more);
        lemma_digit_run_before(text.skip(1), more);
    }
}

proof fn lemma_dash_run_before(text: Seq<char>, more: Seq<char>)
    requires
        dash_run(text) < text.len(),
    ensures
        dash_run(text + more) == dash_run(text),
    decreases text.len(),
{
    if text[0] == '-' {
        assert((text + more).skip(1) =~= text.skip(1) + more);
        lemma_dash_run_before(text.skip(1), more);
    }
}

/// A complete directive is the same whatever follows it.
proof fn lemma_directive_before(text: Seq<char>, more: Seq<char>)
    requires
        directive(text).conversion is Some,
    ensures
        directive(text + more) == directive(text),
        directive(text).len <= text.len(),
{
    let whole = text + more;
    let lead = digit_run(text) as int;
    let flags = flags_at(text);
    let at = width_at(text);
    lemma_digit_run(text);
    lemma_digit_run_before(text, more);
    assert(has_position(whole) == has_position(text));
    assert(whole.skip(flags) =~= text.skip(flags) + more);
    lemma_dash_run(text.skip(flags));
    lemma_dash_run_before(text.skip(flags), more);
    assert(whole.skip(at) =~= text.skip(at) + more);
    assert(whole.take(lead) =~= text.take(lead));
    if !(lead > 0 && !has_position(text)) {
        let fresh = digit_run(text.skip(at)) as int;
        lemma_digit_run(text.skip(at));
        lemma_digit_run_before(text.skip(at), more);
        assert(whole.subrange(at, at + fresh) =~= text.subrange(at, at + fresh));
    }
}

/// The first piece is the same whatever follows it.
proof fn lemma_first_piece_before(
    first: Seq<char>,
    second: Seq<char>,
    args: Seq<Cell>,
    next: nat,
)
    requires
        first.len() > 0,
        first_piece(first, args, next) is Ok,
    ensures
        first_piece(first + second, args, next) == first_piece(first, args, next),
        0 < first_piece(first, args, next)->Ok_0.len <= first.len(),
{
    if first[0] == '%' && !(first.len() > 1 && first[1] == '%') {
        lemma_directive_before(first.skip(1), second);
        assert((first + second).skip(1) =~= first.skip(1) + second);
    }
}

/// Formatting goes from left to right: behind a format string without errors, a second
/// one is formatted as it would be alone, from the first automatic argument that is left.
pub proof fn formatting_concatenates(
    first: Seq<char>,
    second: Seq<char>,
    args: Seq<Cell>,
    next: nat,
)
    requires
        format_from(first, args, next) is Ok,
    ensures
        format_from(first + second, args, next) == behind(
            format_from(first, args, next)->Ok_0.0,
            format_from(second, args, format_from(first, args, next)->Ok_0.1),
        ),
        match format_from(second, args, format_from(first, args, next)->Ok_0.1) {
            Ok((text, last)) => format_from(first + second, args, next) == Ok::<
                (Seq<char>, nat),
                ErrorView,
            >((format_from(first, args, next)->Ok_0.0 + text, last)),
            Err(e) => format_from(first + second, args, next) == Err::<
                (Seq<char>, nat),
                ErrorView,
            >(e),
        },
    decreases first.len(),
{
    let whole = first + second;
    if first.len() == 0 {
        assert(whole =~= second);
        if let Ok((text, n)) = format_from(second, args, next) {
            assert(Seq::<char>::empty() + text =~= text);
        }
    } else {
        lemma_first_piece_before(first, second, args, next);
        let piece = first_piece(first, args, next)->Ok_0;
        let rest = first.skip(piece.len as int);
        assert(whole.skip(piece.len as int) =~= rest + second);
        formatting_concatenates(rest, second, args, piece.next);
        let (written, last) = format_from(rest, args, piece.next)->Ok_0;
        if let Ok((text, n)) = format_from(second, args, last) {
            assert(piece.text + (written + text) =~= (piece.text + written) + text);
        }
    }
}

/// Text without a percent sign is written as it is and takes no argument.
pub proof fn text_without_percent_is_unchanged(text: Seq<char>, args: Seq<Cell>, next: nat)
    requires
        !text.contains('%'),
    ensures
        format_from(text, args, next) == Ok::<(Seq<char>, nat), ErrorView>((text, next)),
    decreases text.len(),
{
    if text.len() == 0 {
        assert(text =~= Seq::empty());
    } else {
        assert(text.contains(text[0]));
        let rest = text.skip(1);
        assert forall|i: int| 0 <= i < rest.len() implies rest[i] != '%' by {
            assert(text.contains(text[i + 1]));
        }
        text_without_percent_is_unchanged(rest, args, next);
        assert(seq![text[0]] + rest =~= text);
    }
}

/// A doubled percent sign stands for one and takes no argument.
pub proof fn doubled_percent_is_one(args: Seq<Cell>, next: nat)
    ensures
        format_from(seq!['%', '%'], args, next) == Ok::<(Seq<char>, nat), ErrorView>(
            (seq!['%'], next),
        ),
{
    let fmt = seq!['%', '%'];
    assert(fmt.skip(2) =~= Seq::empty());
    assert(format_from(fmt.skip(2), args, next) == Ok::<(Seq<char>, nat), ErrorView>(
        (Seq::empty(), next),
    ));
    assert(seq!['%'] + Seq::<char>::empty() =~= seq!['%']);
}

/// A directive with a position takes no automatic argument for its value, one without
/// takes the next; a `*` takes one more, before it.
pub proof fn automatic_arguments_are_taken_in_turn(d: DirectiveView, args: Seq<Cell>, next: nat)
    requires
        field(d, args, next) is Ok,
    ensures
        field(d, args, next)->Ok_0.1 == next + (if d.width is Star {
            1int
        } else {
            0
        }) + (if d.position is None {
            1int
        } else {
            0
        }),
{
}

/// A position counts the arguments from one.
pub proof fn positions_count_from_one(d: DirectiveView, args: Seq<Cell>, next: nat, n: nat)
    requires
        d.position matches Some(digits) && numeral_value(digits, 10) == n,
        d.width is Unset,
        1 <= n <= args.len(),
        n <= usize::MAX,
        d.conversion matches Some(conversion) && converted(conversion, args[n - 1]) is Ok,
    ensures
        field(d, args, next) == Ok::<(Seq<char>, nat), ErrorView>(
            (converted(d.conversion->Some_0, args[n - 1])->Ok_0, next),
        ),
{
}

/// A `*` width with an integer argument acts as that number written in the directive,
/// and a negative one as its magnitude behind the flag `-`.
pub proof fn star_width_is_the_integer(d: DirectiveView, args: Seq<Cell>, next: nat, n: int)
    requires
        d.width is Star,
        next < args.len(),
        i64::MIN <= n <= i64::MAX,
        args[next as int] == Some(signed_decimal(n)),
        -usize::MAX <= n <= usize::MAX,
    ensures
        field_room(d, args, next) == Ok::<Room, ErrorView>(
            Room {
                width: (if n < 0 {
                    -n
                } else {
                    n
                }) as nat,
                left: d.left || n < 0,
                next: next + 1,
            },
        ),
{
    signed_text_reads_back(n);
}

/// A NULL has no text, whatever its type.
pub proof fn null_of_any_type_has_no_text(v: ValueView)
    requires
        v is Null || v == ValueView::Text(None) || v == ValueView::LargeText(None) || v
            == ValueView::Boolean(None) || v == ValueView::Int32(None) || v == ValueView::Int64(
            None,
        ) || v == ValueView::Other(None),
    ensures
        argument_text(v) is None,
{
}

/// NULL is nothing as a text, and the keyword as a literal.
pub proof fn null_conversions()
    ensures
        converted('s', None) == Ok::<Seq<char>, ErrorView>(Seq::empty()),
        converted('L', None) == Ok::<Seq<char>, ErrorView>("NULL"@),
{
}

/// As a literal a value is what `quote_nullable` makes of it, and the literal denotes
/// the text.
pub proof fn literal_conversion_is_quote_nullable(v: Cell)
    ensures
        converted('L', v) == Ok::<Seq<char>, ErrorView>(nullable_literal(v)),
        v matches Some(text) ==> literal_value(converted('L', v)->Ok_0) == Some(text),
{
    if v is Some {
        literal_denotes_its_text(v->Some_0);
    }
}

/// The text that an SQL identifier denotes: a bare one itself, and a quoted one its
/// body, in which a doubled quote stands for one.
pub open spec fn identifier_value(text: Seq<char>) -> Option<Seq<char>> {
    let last = text.len() - 1;
    if is_bare_identifier(text) {
        Some(text)
    } else if text.len() >= 2 && text[0] == '"' && text[last] == '"' {
        undoubled(text.subrange(1, last), '"')
    } else {
        None
    }
}

/// The text in which doubling `mark` gives `body`.
pub open spec fn undoubled(body: Seq<char>, mark: char) -> Option<Seq<char>>
    decreases body.len(),
{
    if body.len() == 0 {
        Some(Seq::empty())
    } else if body[0] == mark && (body.len() < 2 || body[1] != mark) {
        None
    } else {
        let rest = undoubled(
            body.skip(
                if body[0] == mark {
                    2
                } else {
                    1
                },
            ),
            mark,
        );
        match rest {
            Some(text) => Some(seq![body[0]] + text),
            None => None,
        }
    }
}

proof fn lemma_undoubled(text: Seq<char>, mark: char)
    ensures
        undoubled(doubled(text, mark), mark) == Some(text),
    decreases text.len(),
{
    if text.len() == 0 {
        assert(text =~= Seq::empty());
        assert(doubled(text, mark) =~= Seq::empty());
    } else {
        let head = seq![text[0]];
        let rest = text.skip(1);
        assert(text =~= head + rest);
        lemma_undoubled(rest, mark);
        doubled_concatenates(head, rest, mark);
        doubled_of_one(text[0], mark);
        let front = doubled(head, mark);
        let body = front + doubled(rest, mark);
        assert(body.skip(front.len() as int) =~= doubled(rest, mark));
        assert(body[0] == text[0]);
    }
}

/// A rendered identifier denotes the text it was made of.
pub proof fn identifier_denotes_its_text(text: Seq<char>)
    ensures
        identifier_value(identifier(text)) == Some(text),
{
    let id = identifier(text);
    if !is_bare_identifier(text) {
        lemma_undoubled(text, '"');
        assert(id[0] == '"');
        assert(id.subrange(1, id.len() - 1) =~= doubled(text, '"'));
    }
}

/// A rendered literal without escapes denotes the text it was made of: a backslash in
/// it stands for itself.
pub proof fn plain_literal_denotes_its_text(text: Seq<char>)
    ensures
        literal_value(plain_literal(text)) == Some(text),
{
    let l = plain_literal(text);
    literal_body_denotes_its_text(text, false);
    assert(l.subrange(1, l.len() - 1) =~= doubled(text, '\''));
}

proof fn lemma_digit_run_of(digits: Seq<char>, rest: Seq<char>)
    requires
        all_digits(digits),
        rest.len() == 0 || !is_digit(rest[0]),
    ensures
        digit_run(digits + rest) == digits.len(),
    decreases digits.len(),
{
    let text = digits + rest;
    if digits.len() == 0 {
        assert(text =~= rest);
    } else {
        assert(is_digit(digits[0]));
        assert forall|i: int| 0 <= i < digits.skip(1).len() implies is_digit(
            #[trigger] digits.skip(1)[i],
        ) by {
            assert(is_digit(digits[i + 1]));
        }
        assert(text.skip(1) =~= digits.skip(1) + rest);
        lemma_digit_run_of(digits.skip(1), rest);
    }
}

proof fn lemma_dash_run_of(flags: Seq<char>, rest: Seq<char>)
    requires
        forall|i: int| 0 <= i < flags.len() ==> #[trigger] flags[i] == '-',
        rest.len() == 0 || rest[0] != '-',
    ensures
        dash_run(flags + rest) == flags.len(),
    decreases flags.len(),
{
    let text = flags + rest;
    if flags.len() == 0 {
        assert(text =~= rest);
    } else {
        assert(flags[0] == '-');
        assert forall|i: int| 0 <= i < flags.skip(1).len() implies #[trigger] flags.skip(1)[i]
            == '-' by {
            assert(flags[i + 1] == '-');
        }
        assert(text.skip(1) =~= flags.skip(1) + rest);
        lemma_dash_run_of(flags.skip(1), rest);
    }
}

/// The directive that is written by these parts.
spec fn directive_of(
    position: Seq<char>,
    flags: Seq<char>,
    width: Seq<char>,
    rest: Seq<char>,
) -> DirectiveView {
    DirectiveView {
        position: if position.len() > 0 {
            Some(position)
        } else {
            None
        },
        left: flags.len() > 0,
        width: if width == seq!['*'] {
            WidthView::Star
        } else if width.len() > 0 {
            WidthView::Digits(width)
        } else {
            WidthView::Unset
        },
        conversion: if rest.len() > 0 {
            Some(rest[0])
        } else {
            None
        },
        len: (position.len() + (if position.len() > 0 {
            1int
        } else {
            0
        }) + flags.len() + width.len() + 1) as nat,
    }
}

/// What the parts of a directive are, and what may follow them.
spec fn are_parts(
    position: Seq<char>,
    flags: Seq<char>,
    width: Seq<char>,
    rest: Seq<char>,
) -> bool {
    &&& all_digits(position)
    &&& forall|i: int| 0 <= i < flags.len() ==> #[trigger] flags[i] == '-'
    &&& all_digits(width) || width == seq!['*']
    &&& width == seq!['*'] || rest.len() == 0 || {
        &&& !is_digit(rest[0])
        &&& rest[0] == '-' ==> width.len() > 0 && position.len() + flags.len() > 0
        &&& rest[0] == '*' ==> width.len() > 0
        &&& rest[0] == '$' ==> width.len() == 0 || position.len() + flags.len() > 0
    }
}

#[verifier::rlimit(30)]
proof fn lemma_directive_of(
    position: Seq<char>,
    flags: Seq<char>,
    width: Seq<char>,
    rest: Seq<char>,
)
    requires
        are_parts(position, flags, width, rest),
    ensures
        directive(
            (if position.len() > 0 {
                position.push('$')
            } else {
                position
            }) + flags + width + rest,
        ) == directive_of(position, flags, width, rest),
{
    let lead = if position.len() > 0 {
        position.push('$')
    } else {
        position
    };
    let text = lead + flags + width + rest;
    let tail = width + rest;
    let at = (lead.len() + flags.len()) as int;
    if width.len() > 0 {
        assert(tail[0] == width[0]);
        if width != seq!['*'] {
            assert(is_digit(width[0]));
        }
    } else {
        assert(tail =~= rest);
    }
    if width != seq!['*'] {
        lemma_digit_run_of(width, rest);
    } else {
        assert(digit_run(tail) == 0);
    }
    assert(text.skip(at) =~= tail);
    if position.len() == 0 && flags.len() == 0 {
        assert(text =~= tail);
        if width != seq!['*'] && width.len() > 0 {
            assert(text.skip(width.len() as int) =~= rest);
            assert(text.take(width.len() as int) =~= width);
            assert(dash_run(rest) == 0);
        } else {
            assert(text.skip(0) =~= text);
            assert(dash_run(text) == 0);
        }
    } else {
        if position.len() > 0 {
            let behind_position = seq!['$'] + flags + tail;
            assert(text =~= position + behind_position);
            lemma_digit_run_of(position, behind_position);
            assert(text[position.len() as int] == '$');
            assert(text.take(position.len() as int) =~= position);
        } else {
            assert(text[0] == flags[0]);
            assert(digit_run(text) == 0);
        }
        assert(text.skip(lead.len() as int) =~= flags + tail);
        lemma_dash_run_of(flags, tail);
        assert(flags_at(text) == lead.len());
        assert(width_at(text) == at);
        assert(text.subrange(at, at + width.len()) =~= width);
    }
}

/// The text of a directive behind its `%` starts with no second one.
proof fn lemma_directive_text(
    position: Seq<char>,
    flags: Seq<char>,
    width: Seq<char>,
    rest: Seq<char>,
)
    requires
        are_parts(position, flags, width, rest),
        position.len() + flags.len() + width.len() == 0 && rest.len() > 0 ==> rest[0] != '%',
    ensures
        ({
            let lead = if position.len() > 0 {
                position.push('$')
            } else {
                position
            };
            let fmt = seq!['%'] + lead + flags + width + rest;
            &&& fmt.skip(1) == lead + flags + width + rest
            &&& fmt.len() > 1 ==> fmt[1] != '%'
            &&& fmt.len() == 1 + lead.len() + flags.len() + width.len() + rest.len()
            &&& fmt[0] == '%'
        }),
{
    let lead = if position.len() > 0 {
        position.push('$')
    } else {
        position
    };
    let text = lead + flags + width + rest;
    let fmt = seq!['%'] + lead + flags + width + rest;
    assert(fmt.skip(1) =~= text);
    if fmt.len() > 1 {
        assert(fmt[1] == text[0]);
        if position.len() > 0 {
            assert(text[0] == position[0] && is_digit(position[0]));
        } else if flags.len() > 0 {
            assert(text[0] == flags[0]);
        } else if width.len() > 0 {
            assert(text[0] == width[0]);
            assert(width == seq!['*'] || is_digit(width[0]));
        } else {
            assert(text[0] == rest[0]);
        }
    }
}

proof fn lemma_format_of_one(fmt: Seq<char>, d: DirectiveView, args: Seq<Cell>, next: nat)
    requires
        fmt.len() > 0,
        fmt[0] == '%',
        fmt.len() > 1 ==> fmt[1] != '%',
        directive(fmt.skip(1)) == d,
        fmt.len() == 1 + d.len || field(d, args, next) is Err,
    ensures
        format_from(fmt, args, next) == field(d, args, next),
{
    let f = field(d, args, next);
    assert(first_piece(fmt, args, next) == match f {
        Err(e) => Err(e),
        Ok((text, then)) => Ok(Piece { text, len: 1 + d.len, next: then }),
    });
    if let Ok((written, then)) = f {
        assert(fmt.skip(1 + d.len as int) =~= Seq::empty());
        assert(format_from(Seq::empty(), args, then) == Ok::<(Seq<char>, nat), ErrorView>(
            (Seq::empty(), then),
        ));
        assert(written + Seq::<char>::empty() =~= written);
    }
}

/// A format string that is one directive writes what the directive asks for. An error
/// does not depend on what follows.
proof fn lemma_format_of_directive(
    position: Seq<char>,
    flags: Seq<char>,
    width: Seq<char>,
    rest: Seq<char>,
    args: Seq<Cell>,
    next: nat,
)
    requires
        are_parts(position, flags, width, rest),
        position.len() + flags.len() + width.len() == 0 && rest.len() > 0 ==> rest[0] != '%',
        rest.len() == 1 || field(directive_of(position, flags, width, rest), args, next) is Err,
    ensures
        format_from(
            seq!['%'] + (if position.len() > 0 {
                position.push('$')
            } else {
                position
            }) + flags + width + rest,
            args,
            next,
        ) == field(directive_of(position, flags, width, rest), args, next),
{
    lemma_directive_of(position, flags, width, rest);
    lemma_directive_text(position, flags, width, rest);
    lemma_format_of_one(
        seq!['%'] + (if position.len() > 0 {
            position.push('$')
        } else {
            position
        }) + flags + width + rest,
        directive_of(position, flags, width, rest),
        args,
        next,
    );
}

/// A directive writes the argument that its position names, or else the next automatic
/// one, converted and padded to its width, to the left where it has a flag. Only without
/// a position does it take an automatic argument. A width that no machine word holds is
/// none.
pub proof fn directives_write_their_argument(
    position: Seq<char>,
    flags: Seq<char>,
    width: Seq<char>,
    conversion: char,
    args: Seq<Cell>,
    next: nat,
)
    requires
        all_digits(position),
        forall|i: int| 0 <= i < flags.len() ==> #[trigger] flags[i] == '-',
        all_digits(width),
        conversion == 's' || conversion == 'I' || conversion == 'L',
        position.len() > 0 ==> 1 <= numeral_value(position, 10) <= args.len() && numeral_value(
            position,
            10,
        ) <= usize::MAX,
        position.len() == 0 ==> next < args.len(),
    ensures
        format_from(
            seq!['%'] + (if position.len() > 0 {
                position.push('$')
            } else {
                position
            }) + flags + width + seq![conversion],
            args,
            next,
        ) == Ok::<(Seq<char>, nat), ErrorView>(
            if position.len() > 0 {
                (
                    padded(
                        converted(conversion, args[numeral_value(position, 10) - 1])->Ok_0,
                        if numeral_value(width, 10) <= usize::MAX {
                            numeral_value(width, 10)
                        } else {
                            0
                        },
                        flags.len() > 0,
                    ),
                    next,
                )
            } else {
                (
                    padded(
                        converted(conversion, args[next as int])->Ok_0,
                        if numeral_value(width, 10) <= usize::MAX {
                            numeral_value(width, 10)
                        } else {
                            0
                        },
                        flags.len() > 0,
                    ),
                    next + 1,
                )
            },
        ),
{
    assert(width.len() > 0 ==> is_digit(width[0]));
    assert(numeral_value(Seq::<char>::empty(), 10) == 0);
    lemma_format_of_directive(position, flags, width, seq![conversion], args, next);
}

/// With `*` the width is the next automatic argument, read as an integer, and the value
/// comes behind it; a negative integer acts as the flag does.
pub proof fn star_directives_write_their_argument(
    position: Seq<char>,
    flags: Seq<char>,
    conversion: char,
    args: Seq<Cell>,
    next: nat,
    width: int,
)
    requires
        all_digits(position),
        forall|i: int| 0 <= i < flags.len() ==> #[trigger] flags[i] == '-',
        conversion == 's' || conversion == 'I' || conversion == 'L',
        next < args.len(),
        args[next as int] matches Some(text) && signed_value(text) == Some(width),
        -usize::MAX <= width <= usize::MAX,
        position.len() > 0 ==> 1 <= numeral_value(position, 10) <= args.len() && numeral_value(
            position,
            10,
        ) <= usize::MAX,
        position.len() == 0 ==> next + 1 < args.len(),
    ensures
        format_from(
            seq!['%'] + (if position.len() > 0 {
                position.push('$')
            } else {
                position
            }) + flags + seq!['*'] + seq![conversion],
            args,
            next,
        ) == Ok::<(Seq<char>, nat), ErrorView>(
            if position.len() > 0 {
                (
                    padded(
                        converted(conversion, args[numeral_value(position, 10) - 1])->Ok_0,
                        (if width < 0 {
                            -width
                        } else {
                            width
                        }) as nat,
                        flags.len() > 0 || width < 0,
                    ),
                    next + 1,
                )
            } else {
                (
                    padded(
                        converted(conversion, args[(next + 1) as int])->Ok_0,
                        (if width < 0 {
                            -width
                        } else {
                            width
                        }) as nat,
                        flags.len() > 0 || width < 0,
                    ),
                    next + 2,
                )
            },
        ),
{
    let d = directive_of(position, flags, seq!['*'], seq![conversion]);
    let room = Room {
        width: (if width < 0 {
            -width
        } else {
            width
        }) as nat,
        left: flags.len() > 0 || width < 0,
        next: next + 1,
    };
    assert(d.width is Star);
    assert(field_room(d, args, next) == Ok::<Room, ErrorView>(room));
    lemma_format_of_directive(position, flags, seq!['*'], seq![conversion], args, next);
}

/// A flag may also stand behind the digits of the width, where there is no position.
pub proof fn flags_may_follow_the_width(
    flags: Seq<char>,
    width: Seq<char>,
    conversion: char,
    args: Seq<Cell>,
    next: nat,
)
    requires
        flags.len() > 0,
        forall|i: int| 0 <= i < flags.len() ==> #[trigger] flags[i] == '-',
        width.len() > 0,
        all_digits(width),
        !is_digit(conversion),
        conversion != '-',
        conversion != '*',
        conversion != '$',
    ensures
        format_from(seq!['%'] + width + flags + seq![conversion], args, next) == format_from(
            seq!['%'] + flags + width + seq![conversion],
            args,
            next,
        ),
{
    let none = Seq::<char>::empty();
    let last = seq![conversion];
    lemma_format_of_directive(none, flags, width, last, args, next);
    assert(seq!['%'] + none + flags + width + last =~= seq!['%'] + flags + width + last);
    let fmt = seq!['%'] + width + flags + last;
    assert(fmt.skip(1) =~= width + flags + last);
    assert(is_digit(width[0]));
    assert(fmt[1] == width[0]);
    lemma_flags_behind_the_width(flags, width, last);
    lemma_format_of_one(fmt, directive_of(none, flags, width, last), args, next);
}

proof fn lemma_flags_behind_the_width(flags: Seq<char>, width: Seq<char>, last: Seq<char>)
    requires
        flags.len() > 0,
        forall|i: int| 0 <= i < flags.len() ==> #[trigger] flags[i] == '-',
        width.len() > 0,
        all_digits(width),
        last.len() == 1,
        last[0] != '-',
    ensures
        directive(width + flags + last) == directive_of(Seq::empty(), flags, width, last),
{
    let text = width + flags + last;
    assert(is_digit(width[0]));
    assert(text =~= width + (flags + last));
    assert((flags + last)[0] == flags[0]);
    lemma_digit_run_of(width, flags + last);
    assert(text[width.len() as int] == '-');
    assert(text.skip(width.len() as int) =~= flags + last);
    lemma_dash_run_of(flags, last);
    assert(text.take(width.len() as int) =~= width);
}

/// A conversion other than the three is an error that names it.
pub proof fn other_conversions_are_errors(
    position: Seq<char>,
    flags: Seq<char>,
    width: Seq<char>,
    conversion: char,
    rest: Seq<char>,
    args: Seq<Cell>,
    next: nat,
)
    requires
        all_digits(position),
        forall|i: int| 0 <= i < flags.len() ==> #[trigger] flags[i] == '-',
        all_digits(width),
        conversion != 's' && conversion != 'I' && conversion != 'L',
        !is_digit(conversion),
        conversion == '-' ==> width.len() > 0 && position.len() + flags.len() > 0,
        conversion == '*' ==> width.len() > 0,
        conversion == '$' ==> width.len() == 0 || position.len() + flags.len() > 0,
        position.len() + flags.len() + width.len() == 0 ==> conversion != '%',
        position.len() > 0 ==> 1 <= numeral_value(position, 10) <= args.len() && numeral_value(
            position,
            10,
        ) <= usize::MAX,
        position.len() == 0 ==> next < args.len(),
    ensures
        format_from(
            seq!['%'] + (if position.len() > 0 {
                position.push('$')
            } else {
                position
            }) + flags + width + (seq![conversion] + rest),
            args,
            next,
        ) == Err::<(Seq<char>, nat), ErrorView>(ErrorView::UnrecognizedSpecifier { specifier: conversion }),
{
    let d = directive_of(position, flags, width, seq![conversion] + rest);
    assert(d.conversion == Some(conversion));
    assert(width.len() > 0 ==> is_digit(width[0]));
    assert(field_room(d, args, next) matches Ok(room) && room.next == next);
    lemma_format_of_directive(position, flags, width, seq![conversion] + rest, args, next);
}

/// A directive whose argument is not there is an error that tells which it is, counted
/// from zero, and how many there are.
pub proof fn missing_arguments_are_errors(
    position: Seq<char>,
    flags: Seq<char>,
    width: Seq<char>,
    conversion: char,
    rest: Seq<char>,
    args: Seq<Cell>,
    next: nat,
)
    requires
        all_digits(position),
        forall|i: int| 0 <= i < flags.len() ==> #[trigger] flags[i] == '-',
        all_digits(width),
        !is_digit(conversion),
        conversion == '-' ==> width.len() > 0 && position.len() + flags.len() > 0,
        conversion == '*' ==> width.len() > 0,
        conversion == '$' ==> width.len() == 0 || position.len() + flags.len() > 0,
        position.len() + flags.len() + width.len() == 0 ==> conversion != '%',
        position.len() > 0 ==> args.len() < numeral_value(position, 10) <= usize::MAX,
        position.len() == 0 ==> args.len() <= next,
    ensures
        format_from(
            seq!['%'] + (if position.len() > 0 {
                position.push('$')
            } else {
                position
            }) + flags + width + (seq![conversion] + rest),
            args,
            next,
        ) == Err::<(Seq<char>, nat), ErrorView>(
            ErrorView::TooFewArguments {
                index: if position.len() > 0 {
                    (numeral_value(position, 10) - 1) as nat
                } else {
                    next
                },
                supplied: args.len(),
            },
        ),
{
    let d = directive_of(position, flags, width, seq![conversion] + rest);
    let index = if position.len() > 0 {
        (numeral_value(position, 10) - 1) as nat
    } else {
        next
    };
    assert(d.conversion == Some(conversion));
    assert(width.len() > 0 ==> is_digit(width[0]));
    assert(field_room(d, args, next) matches Ok(room) && room.next == next);
    assert(position.len() > 0 ==> position_index(d.position) == Ok::<Option<nat>, ErrorView>(
        Some(index),
    ));
    assert(field(d, args, next) == Err::<(Seq<char>, nat), ErrorView>(
        ErrorView::TooFewArguments { index, supplied: args.len() },
    ));
    lemma_format_of_directive(position, flags, width, seq![conversion] + rest, args, next);
}

/// The position zero is an error, and so is one that no machine word holds, whatever
/// follows.
pub proof fn positions_out_of_range_are_errors(
    position: Seq<char>,
    rest: Seq<char>,
    args: Seq<Cell>,
    next: nat,
)
    requires
        position.len() > 0,
        all_digits(position),
    ensures
        numeral_value(position, 10) == 0 ==> format_from(
            seq!['%'] + position + seq!['$'] + rest,
            args,
            next,
        ) == Err::<(Seq<char>, nat), ErrorView>(ErrorView::ZeroPositionalIndex),
        numeral_value(position, 10) > usize::MAX ==> format_from(
            seq!['%'] + position + seq!['$'] + rest,
            args,
            next,
        ) == Err::<(Seq<char>, nat), ErrorView>(
            ErrorView::InvalidPositionalIndex { digits: position },
        ),
{
    let fmt = seq!['%'] + position + seq!['$'] + rest;
    let text = position + (seq!['$'] + rest);
    let d = directive(text);
    lemma_position_of(position, rest);
    assert(fmt.skip(1) =~= text);
    assert(is_digit(position[0]));
    assert(fmt[1] == position[0]);
    if numeral_value(position, 10) == 0 || numeral_value(position, 10) > usize::MAX {
        assert(position_index(d.position) is Err);
        lemma_format_of_one(fmt, d, args, next);
    }
}

proof fn lemma_position_of(position: Seq<char>, rest: Seq<char>)
    requires
        position.len() > 0,
        all_digits(position),
    ensures
        directive(position + (seq!['$'] + rest)).position == Some(position),
{
    let text = position + (seq!['$'] + rest);
    lemma_digit_run_of(position, seq!['$'] + rest);
    assert(text.take(position.len() as int) =~= position);
    assert(text[position.len() as int] == '$');
}

/// A `*` needs an argument that is an integer: that it is missing, NULL or something else
/// is an error of its own, whatever follows.
pub proof fn stars_need_an_integer(
    position: Seq<char>,
    flags: Seq<char>,
    rest: Seq<char>,
    args: Seq<Cell>,
    next: nat,
)
    requires
        all_digits(position),
        forall|i: int| 0 <= i < flags.len() ==> #[trigger] flags[i] == '-',
        position.len() > 0 ==> 1 <= numeral_value(position, 10) <= usize::MAX,
        next < args.len() ==> (args[next as int] matches Some(text) ==> signed_value(text) is None),
    ensures
        format_from(
            seq!['%'] + (if position.len() > 0 {
                position.push('$')
            } else {
                position
            }) + flags + seq!['*'] + rest,
            args,
            next,
        ) == Err::<(Seq<char>, nat), ErrorView>(
            if next >= args.len() {
                ErrorView::MissingWidthArgument
            } else if args[next as int] is None {
                ErrorView::NullWidthArgument
            } else {
                ErrorView::InvalidWidth { text: args[next as int]->Some_0 }
            },
        ),
{
    lemma_format_of_directive(position, flags, seq!['*'], rest, args, next);
}

/// A format string that ends inside a directive is an error.
pub proof fn incomplete_directives_are_errors(
    position: Seq<char>,
    flags: Seq<char>,
    width: Seq<char>,
    args: Seq<Cell>,
    next: nat,
)
    requires
        all_digits(position),
        forall|i: int| 0 <= i < flags.len() ==> #[trigger] flags[i] == '-',
        position.len() > 0 ==> 1 <= numeral_value(position, 10) <= usize::MAX,
        all_digits(width) || (width == seq!['*'] && next < args.len()
            && args[next as int] is Some && signed_value(args[next as int]->Some_0) is Some),
    ensures
        format_from(
            seq!['%'] + (if position.len() > 0 {
                position.push('$')
            } else {
                position
            }) + flags + width,
            args,
            next,
        ) == Err::<(Seq<char>, nat), ErrorView>(ErrorView::IncompleteSpecifier),
{
    let none = Seq::<char>::empty();
    let d = directive_of(position, flags, width, none);
    assert(width.len() > 0 && all_digits(width) ==> is_digit(width[0]));
    assert(position_index(d.position) is Ok);
    assert(field_room(d, args, next) is Ok);
    assert(field(d, args, next) == Err::<(Seq<char>, nat), ErrorView>(
        ErrorView::IncompleteSpecifier,
    ));
    lemma_format_of_directive(position, flags, width, none, args, next);
    let lead = if position.len() > 0 {
        position.push('$')
    } else {
        position
    };
    assert(seq!['%'] + lead + flags + width + none =~= seq!['%'] + lead + flags + width);
}

/// An error that the first piece has before its end is the same whatever follows.
proof fn lemma_first_error_before(
    first: Seq<char>,
    second: Seq<char>,
    args: Seq<Cell>,
    next: nat,
)
    requires
        first.len() > 0,
        first_piece(first, args, next) matches Err(e) && !(e is IncompleteSpecifier),
    ensures
        first_piece(first + second, args, next) == first_piece(first, args, next),
{
    let text = first.skip(1);
    let whole = text + second;
    let d = directive(text);
    assert((first + second).skip(1) =~= whole);
    if first.len() == 1 {
        assert(text.len() == 0);
        assert(d.conversion is None && d.position is None && d.width is Unset);
    } else {
        assert((first + second)[1] == first[1]);
        if d.conversion is Some {
            lemma_directive_before(text, second);
        } else {
            lemma_prefix_of_directive(text, second);
        }
    }
}

/// The position and the `*` of a directive are the same whatever follows them.
proof fn lemma_prefix_of_directive(text: Seq<char>, more: Seq<char>)
    requires
        has_position(text) || directive(text).width is Star,
    ensures
        directive(text + more).position == directive(text).position,
        directive(text).width is Star ==> directive(text + more).width is Star,
{
    let whole = text + more;
    let lead = digit_run(text) as int;
    let flags = flags_at(text);
    let at = width_at(text);
    lemma_digit_run(text);
    lemma_digit_run_before(text, more);
    assert(has_position(whole) == has_position(text));
    assert(whole.take(lead) =~= text.take(lead));
    if directive(text).width is Star {
        assert(whole.skip(flags) =~= text.skip(flags) + more);
        lemma_dash_run(text.skip(flags));
        lemma_dash_run_before(text.skip(flags), more);
        assert(whole.skip(at) =~= text.skip(at) + more);
        lemma_digit_run_before(text.skip(at), more);
    }
}

/// The first error ends the formatting: what follows it is not looked at. A directive that
/// is merely incomplete may be completed by what follows.
pub proof fn errors_end_the_formatting(
    first: Seq<char>,
    second: Seq<char>,
    args: Seq<Cell>,
    next: nat,
)
    requires
        format_from(first, args, next) matches Err(e) && !(e is IncompleteSpecifier),
    ensures
        format_from(first + second, args, next) == format_from(first, args, next),
    decreases first.len(),
{
    if first_piece(first, args, next) is Err {
        lemma_first_error_before(first, second, args, next);
    } else {
        lemma_first_piece_before(first, second, args, next);
        let piece = first_piece(first, args, next)->Ok_0;
        let rest = first.skip(piece.len as int);
        assert((first + second).skip(piece.len as int) =~= rest + second);
        errors_end_the_formatting(rest, second, args, piece.next);
    }
}

/// A text is written by `s` exactly as it is, character for character, and as an
/// identifier by `I`, where NULL counts as the empty text.
pub proof fn conversions_of_a_text(text: Seq<char>, conversion: char)
    ensures
        converted('s', Some(text)) == Ok::<Seq<char>, ErrorView>(text),
        converted('I', Some(text)) == Ok::<Seq<char>, ErrorView>(identifier(text)),
        converted('I', None) == Ok::<Seq<char>, ErrorView>(seq!['"', '"']),
        conversion != 's' && conversion != 'I' && conversion != 'L' ==> converted(
            conversion,
            Some(text),
        ) == Err::<Seq<char>, ErrorView>(
            ErrorView::UnrecognizedSpecifier { specifier: conversion },
        ),
{
    let none = Seq::<char>::empty();
    assert(doubled(none, '"') =~= none);
    assert(identifier(none) =~= seq!['"', '"']);
}

/// Between texts without percent signs, a lone `%s` gives way to the first argument,
/// character for character, and to nothing where that is NULL.
pub proof fn strings_are_inserted_as_they_are(before: Seq<char>, after: Seq<char>, args: Seq<Cell>)
    requires
        !before.contains('%'),
        !after.contains('%'),
        args.len() > 0,
    ensures
        formatted(before + seq!['%', 's'] + after, args) == Ok::<Seq<char>, ErrorView>(
            match args[0] {
                Some(text) => before + text + after,
                None => before + after,
            },
        ),
{
    let none = Seq::<char>::empty();
    let inserted = converted('s', args[0])->Ok_0;
    directives_write_their_argument(none, none, none, 's', args, 0);
    assert(seq!['%'] + none + none + none + seq!['s'] =~= seq!['%', 's']);
    assert(numeral_value(none, 10) == 0);
    text_without_percent_is_unchanged(before, args, 0);
    text_without_percent_is_unchanged(after, args, 1);
    formatting_concatenates(before, seq!['%', 's'], args, 0);
    formatting_concatenates(before + seq!['%', 's'], after, args, 0);
    assert(before + none + after =~= before + after);
}

/// The identifier of a text is the text itself where that is made of small ASCII letters,
/// digits and underscores and does not start with a digit. Of any other text it is the
/// text between double quotes, with each double quote in it written twice.
pub proof fn identifiers_are_written_character_by_character(text: Seq<char>)
    ensures
        ({
            let bare = text.len() > 0 && !('0' <= text[0] <= '9') && forall|i: int|
                0 <= i < text.len() ==> 'a' <= #[trigger] text[i] <= 'z' || '0' <= text[i] <= '9'
                    || text[i] == '_';
            identifier(text) == (if bare {
                text
            } else {
                seq!['"'] + text.flat_map(
                    |c: char|
                        if c == '"' {
                            seq![c, c]
                        } else {
                            seq![c]
                        },
                ) + seq!['"']
            })
        }),
{
    doubling_is_a_replacement(text, '"');
    let twice = |c: char|
        if c == '"' {
            seq![c, c]
        } else {
            seq![c]
        };
    let replace = |c: char|
        if c == '"' {
            seq!['"', '"']
        } else {
            seq![c]
        };
    assert(text.map_values(twice) =~= text.map_values(replace));
}

/// The literal without escapes is the text between quotes, with each quote in it written
/// twice and everything else as it is.
pub proof fn plain_literals_are_written_character_by_character(text: Seq<char>)
    ensures
        plain_literal(text) == seq!['\''] + text.flat_map(
            |c: char|
                if c == '\'' {
                    seq![c, c]
                } else {
                    seq![c]
                },
        ) + seq!['\''],
{
    doubling_is_a_replacement(text, '\'');
    let twice = |c: char|
        if c == '\'' {
            seq![c, c]
        } else {
            seq![c]
        };
    let replace = |c: char|
        if c == '\'' {
            seq!['\'', '\'']
        } else {
            seq![c]
        };
    assert(text.map_values(twice) =~= text.map_values(replace));
}

/// A text of either type, and the text of a value of another type, is taken as it is; an
/// integer by its decimal numeral and a truth value by its name. A column has no text.
pub proof fn arguments_have_these_texts(v: ValueView)
    ensures
        match v {
            ValueView::Text(cell) => argument_text(v) == cell,
            ValueView::LargeText(cell) => argument_text(v) == cell,
            ValueView::Other(cell) => argument_text(v) == cell,
            ValueView::Int32(Some(n)) => argument_text(v) matches Some(text) && signed_value(text)
                == Some(n as int) && text == signed_decimal(n as int),
            ValueView::Int64(Some(n)) => argument_text(v) matches Some(text) && signed_value(text)
                == Some(n as int) && text == signed_decimal(n as int),
            ValueView::Boolean(Some(b)) => argument_text(v) == Some(
                if b {
                    seq!['t', 'r', 'u', 'e']
                } else {
                    seq!['f', 'a', 'l', 's', 'e']
                },
            ),
            _ => argument_text(v) is None,
        },
{
    reveal_strlit("true");
    reveal_strlit("false");
    assert("true"@ =~= seq!['t', 'r', 'u', 'e']);
    assert("false"@ =~= seq!['f', 'a', 'l', 's', 'e']);
    match v {
        ValueView::Int32(Some(n)) => {
            signed_text_reads_back(n as int);
        },
        ValueView::Int64(Some(n)) => {
            signed_text_reads_back(n as int);
        },
        _ => {},
    }
}

/// A call of `format` takes its first argument as the format string and counts the others
/// from there. A NULL format string gives NULL; none at all, or one that is no text, is an
/// error.
pub proof fn format_takes_the_first_argument_as_format_string(
    args: Seq<ValueView>,
    texts: Seq<Cell>,
)
    requires
        texts.len() + 1 == args.len() || args.len() == 0,
        forall|i: int| 0 <= i < texts.len() ==> #[trigger] texts[i] == argument_text(args[i + 1]),
    ensures
        args.len() == 0 ==> format_call(args) == Err::<ValueView, ErrorView>(
            ErrorView::MissingFormatString,
        ),
        args.len() > 0 ==> match args[0] {
            ValueView::Text(Some(fmt)) => match formatted(fmt, texts) {
                Ok(text) => format_call(args) == Ok::<ValueView, ErrorView>(
                    ValueView::Text(Some(text)),
                ),
                Err(e) => format_call(args) == Err::<ValueView, ErrorView>(e),
            },
            ValueView::Text(None) => format_call(args) == Ok::<ValueView, ErrorView>(
                ValueView::Text(None),
            ),
            _ => format_call(args) == Err::<ValueView, ErrorView>(ErrorView::FormatStringNotText),
        },
{
    if args.len() > 0 {
        assert(argument_texts(args) =~= texts);
    }
}

/// The automatic arguments are counted from the first.
pub proof fn formatting_starts_at_the_first_argument(fmt: Seq<char>, args: Seq<Cell>)
    ensures
        match format_from(fmt, args, 0) {
            Ok((text, next)) => formatted(fmt, args) == Ok::<Seq<char>, ErrorView>(text),
            Err(e) => formatted(fmt, args) == Err::<Seq<char>, ErrorView>(e),
        },
{
}

} // verus!
