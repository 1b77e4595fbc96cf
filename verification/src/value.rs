//! SQL values as the functions see them, and how a function of one text is applied to a
//! whole column.

use vstd::prelude::*;

use crate::error::{ErrorView, PgError};

verus! {

/// A text, or NULL.
pub type Cell = Option<Seq<char>>;

pub open spec fn cell_of(v: Option<String>) -> Cell {
    match v {
        Some(text) => Some(text@),
        None => None,
    }
}

pub open spec fn column_of(column: Seq<Option<String>>) -> Seq<Cell> {
    Seq::new(column.len(), |i: int| cell_of(column[i]))
}

/// One argument or result of a function call: a column of values or a single value.
#[derive(Debug, PartialEq, Eq)]
pub enum ColumnarValue {
    /// A column of texts.
    TextArray(Vec<Option<String>>),
    /// A column of truth values.
    BooleanArray(Vec<Option<bool>>),
    /// A column of anything else.
    OtherArray,
    /// A text.
    Text(Option<String>),
    /// A text of the type with long offsets.
    LargeText(Option<String>),
    /// A truth value.
    Boolean(Option<bool>),
    /// A 32-bit integer.
    Int32(Option<i32>),
    /// A 64-bit integer.
    Int64(Option<i64>),
    /// NULL without a type.
    Null,
    /// A value of another type, by the text that displays it.
    Other(Option<String>),
}

/// The mathematical content of a [`ColumnarValue`].
#[verifier::ext_equal]
pub enum ValueView {
    TextArray(Seq<Cell>),
    BooleanArray(Seq<Option<bool>>),
    OtherArray,
    Text(Cell),
    LargeText(Cell),
    Boolean(Option<bool>),
    Int32(Option<i32>),
    Int64(Option<i64>),
    Null,
    Other(Cell),
}

impl View for ColumnarValue {
    type V = ValueView;

    open spec fn view(&self) -> ValueView {
        match *self {
            ColumnarValue::TextArray(column) => ValueView::TextArray(column_of(column@)),
            ColumnarValue::BooleanArray(column) => ValueView::BooleanArray(column@),
            ColumnarValue::OtherArray => ValueView::OtherArray,
            ColumnarValue::Text(v) => ValueView::Text(cell_of(v)),
            ColumnarValue::LargeText(v) => ValueView::LargeText(cell_of(v)),
            ColumnarValue::Boolean(v) => ValueView::Boolean(v),
            ColumnarValue::Int32(v) => ValueView::Int32(v),
            ColumnarValue::Int64(v) => ValueView::Int64(v),
            ColumnarValue::Null => ValueView::Null,
            ColumnarValue::Other(v) => ValueView::Other(cell_of(v)),
        }
    }
}

/// The arguments of a call, by their content.
pub open spec fn values_of(args: Seq<ColumnarValue>) -> Seq<ValueView> {
    Seq::new(args.len(), |i: int| args[i]@)
}

/// A result over views.
pub open spec fn value_result(r: Result<ColumnarValue, PgError>) -> Result<ValueView, ErrorView> {
    match r {
        Ok(v) => Ok(v@),
        Err(e) => Err(e@),
    }
}

/// A column of some type other than text. The functions of texts do not take one: the
/// engine converts a column to the declared type before the call.
pub open spec fn is_non_text_array(v: ValueView) -> bool {
    v is BooleanArray || v is OtherArray
}

/// The type of a value, as far as the functions declare any.
#[derive(Debug, Clone, Copy, PartialEq, Eq, Structural)]
pub enum DataType {
    Utf8,
    Boolean,
}

/// What the engine may assume of repeated calls with the same arguments.
#[derive(Debug, Clone, Copy, PartialEq, Eq, Structural)]
pub enum Volatility {
    /// The result is always the same.
    Immutable,
    /// The result is the same within one query.
    Stable,
}

/// The argument lists that a function takes.
#[derive(Debug, PartialEq, Eq)]
pub enum ArgumentTypes {
    /// Exactly this list.
    Exact(Vec<DataType>),
    /// Any one of these lists.
    OneOf(Vec<Vec<DataType>>),
    /// One or more arguments of any type.
    VariadicAny,
}

/// What a function declares of itself to the engine.
#[derive(Debug, PartialEq, Eq)]
pub struct Signature {
    pub arguments: ArgumentTypes,
    pub volatility: Volatility,
}

#[verifier::ext_equal]
pub enum ArgumentTypesView {
    Exact(Seq<DataType>),
    OneOf(Seq<Seq<DataType>>),
    VariadicAny,
}

impl View for ArgumentTypes {
    type V = ArgumentTypesView;

    open spec fn view(&self) -> ArgumentTypesView {
        match *self {
            ArgumentTypes::Exact(types) => ArgumentTypesView::Exact(types@),
            ArgumentTypes::OneOf(lists) => ArgumentTypesView::OneOf(
                Seq::new(lists@.len(), |i: int| lists@[i]@),
            ),
            ArgumentTypes::VariadicAny => ArgumentTypesView::VariadicAny,
        }
    }
}

/// The signature of a function of one text.
pub(crate) fn one_text() -> (s: Signature)
    ensures
        s.arguments@ == ArgumentTypesView::OneOf(seq![seq![DataType::Utf8]]),
        s.volatility == Volatility::Immutable,
{
    let arguments = ArgumentTypes::OneOf(vec![vec![DataType::Utf8]]);
    assert(arguments@->OneOf_0 =~~= seq![seq![DataType::Utf8]]);
    Signature { arguments, volatility: Volatility::Immutable }
}

/// The signature of a function of one text with an optional second one.
pub(crate) fn one_or_two_texts() -> (s: Signature)
    ensures
        s.arguments@ == ArgumentTypesView::OneOf(
            seq![seq![DataType::Utf8], seq![DataType::Utf8, DataType::Utf8]],
        ),
        s.volatility == Volatility::Immutable,
{
    let arguments = ArgumentTypes::OneOf(
        vec![vec![DataType::Utf8], vec![DataType::Utf8, DataType::Utf8]],
    );
    assert(arguments@->OneOf_0 =~~= seq![
        seq![DataType::Utf8],
        seq![DataType::Utf8, DataType::Utf8],
    ]);
    Signature { arguments, volatility: Volatility::Immutable }
}

/// A copy of an optional text.
pub(crate) fn copy_cell(v: &Option<String>) -> (copy: Option<String>)
    ensures
        cell_of(copy) == cell_of(*v),
{
    match v {
        Some(text) => Some(text.clone()),
        None => None,
    }
}

/// A function of one text or NULL that gives a text or NULL.
pub type CellMap = spec_fn(Cell) -> Result<Cell, ErrorView>;

/// The function applied to every cell of a column, or the error of the first cell that
/// has one.
pub open spec fn mapped_column(f: CellMap, column: Seq<Cell>) -> Result<Seq<Cell>, ErrorView>
    decreases column.len(),
{
    if column.len() == 0 {
        Ok(Seq::empty())
    } else {
        match mapped_column(f, column.drop_last()) {
            Err(e) => Err(e),
            Ok(done) => match f(column.last()) {
                Err(e) => Err(e),
                Ok(v) => Ok(done.push(v)),
            },
        }
    }
}

/// What the function of this name gives on one argument: a column for a column and a
/// value for a value.
pub open spec fn mapped_value(f: CellMap, name: Seq<char>, arg: ValueView) -> Result<
    ValueView,
    ErrorView,
> {
    match arg {
        ValueView::TextArray(column) => match mapped_column(f, column) {
            Ok(done) => Ok(ValueView::TextArray(done)),
            Err(e) => Err(e),
        },
        ValueView::Text(v) => match f(v) {
            Ok(out) => Ok(ValueView::Text(out)),
            Err(e) => Err(e),
        },
        _ => Err(ErrorView::UnexpectedArgumentType { function: name }),
    }
}

/// An executable [`CellMap`].
pub(crate) trait CellFunction {
    spec fn cell_map(&self) -> CellMap;

    spec fn function_name(&self) -> Seq<char>;

    fn apply(&self, v: &Option<String>) -> (r: Result<Option<String>, PgError>)
        ensures
            match r {
                Ok(out) => self.cell_map()(cell_of(*v)) == Ok::<Cell, ErrorView>(cell_of(out)),
                Err(e) => self.cell_map()(cell_of(*v)) == Err::<Cell, ErrorView>(e@),
            },
    ;

    fn report_name(&self) -> (name: String)
        ensures
            name@ == self.function_name(),
    ;
}

/// An error of one cell is the error of the column, where the cells before it have none.
proof fn lemma_first_error(f: CellMap, column: Seq<Cell>, n: int)
    requires
        0 < n <= column.len(),
        mapped_column(f, column.take(n)) is Err,
    ensures
        mapped_column(f, column) == mapped_column(f, column.take(n)),
    decreases column.len(),
{
    if n == column.len() {
        assert(column.take(n) =~= column);
    } else {
        assert(column.drop_last().take(n) =~= column.take(n));
        lemma_first_error(f, column.drop_last(), n);
    }
}

fn map_column<F: CellFunction>(f: &F, column: &Vec<Option<String>>) -> (r: Result<
    Vec<Option<String>>,
    PgError,
>)
    ensures
        match r {
            Ok(out) => mapped_column(f.cell_map(), column_of(column@)) == Ok::<Seq<Cell>, ErrorView>(
                column_of(out@),
            ),
            Err(e) => mapped_column(f.cell_map(), column_of(column@)) == Err::<Seq<Cell>, ErrorView>(e@),
        },
{
    let mut out: Vec<Option<String>> = Vec::new();
    let ghost cells = column_of(column@);
    assert(column_of(out@) =~= Seq::empty());
    for i in 0..column.len()
        invariant
            cells == column_of(column@),
            mapped_column(f.cell_map(), cells.take(i as int)) == Ok::<Seq<Cell>, ErrorView>(column_of(out@)),
    {
        assert(cells.take(i + 1).drop_last() =~= cells.take(i as int));
        match f.apply(&column[i]) {
            Ok(v) => {
                let ghost before = out@;
                out.push(v);
                assert(column_of(out@) =~= column_of(before).push(cell_of(v)));
            },
            Err(e) => {
                proof {
                    lemma_first_error(f.cell_map(), cells, i + 1);
                }
                return Err(e);
            },
        }
    }
    assert(cells.take(cells.len() as int) =~= cells);
    Ok(out)
}

/// Applies a function of one text to an argument.
pub(crate) fn map_value<F: CellFunction>(f: &F, arg: &ColumnarValue) -> (r: Result<
    ColumnarValue,
    PgError,
>)
    ensures
        value_result(r) == mapped_value(f.cell_map(), f.function_name(), arg@),
{
    match arg {
        ColumnarValue::TextArray(column) => match map_column(f, column) {
            Ok(out) => Ok(ColumnarValue::TextArray(out)),
            Err(e) => Err(e),
        },
        ColumnarValue::Text(v) => match f.apply(v) {
            Ok(out) => Ok(ColumnarValue::Text(out)),
            Err(e) => Err(e),
        },
        _ => Err(PgError::UnexpectedArgumentType { function: f.report_name() }),
    }
}

/// A call on a column gives, cell by cell, what the call on each value alone gives; it
/// fails exactly where one of these calls fails, with the error of the first.
pub proof fn column_is_mapped_cell_by_cell(f: CellMap, column: Seq<Cell>)
    ensures
        match mapped_column(f, column) {
            Ok(out) => {
                &&& out.len() == column.len()
                &&& forall|i: int|
                    0 <= i < column.len() ==> f(#[trigger] column[i]) == Ok::<Cell, ErrorView>(
                        out[i],
                    )
            },
            Err(e) => exists|i: int|
                {
                    &&& 0 <= i < column.len()
                    &&& f(#[trigger] column[i]) == Err::<Cell, ErrorView>(e)
                    &&& forall|j: int| 0 <= j < i ==> f(#[trigger] column[j]) is Ok
                },
        },
    decreases column.len(),
{
    if column.len() > 0 {
        let rest = column.drop_last();
        column_is_mapped_cell_by_cell(f, rest);
        match mapped_column(f, rest) {
            Err(e) => {
                let i = choose|i: int|
                    {
                        &&& 0 <= i < rest.len()
                        &&& f(#[trigger] rest[i]) == Err::<Cell, ErrorView>(e)
                        &&& forall|j: int| 0 <= j < i ==> f(#[trigger] rest[j]) is Ok
                    };
                assert(column[i] == rest[i]);
                assert forall|j: int| 0 <= j < i implies f(#[trigger] column[j]) is Ok by {
                    assert(column[j] == rest[j]);
                }
            },
            Ok(done) => {
                let last = column.len() - 1;
                assert forall|i: int| 0 <= i < last implies f(#[trigger] column[i]) == Ok::<
                    Cell,
                    ErrorView,
                >(done[i]) by {
                    assert(column[i] == rest[i]);
                }
                assert(f(column[last]) is Err ==> f(column[last]) == Err::<
                    Cell,
                    ErrorView,
                >(mapped_column(f, column)->Err_0));
            },
        }
    }
}

/// A function of texts is applied to a value alone as it is to each cell of a column: the
/// two calls give the same texts, and a column fails as its first failing cell does.
pub proof fn values_and_columns_agree(f: CellMap, name: Seq<char>, column: Seq<Cell>)
    ensures
        match mapped_value(f, name, ValueView::TextArray(column)) {
            Ok(out) => {
                &&& out is TextArray
                &&& out->TextArray_0.len() == column.len()
                &&& forall|i: int|
                    0 <= i < column.len() ==> mapped_value(
                        f,
                        name,
                        ValueView::Text(#[trigger] column[i]),
                    ) == Ok::<ValueView, ErrorView>(ValueView::Text(out->TextArray_0[i]))
            },
            Err(e) => exists|i: int|
                {
                    &&& 0 <= i < column.len()
                    &&& mapped_value(f, name, ValueView::Text(#[trigger] column[i])) == Err::<
                        ValueView,
                        ErrorView,
                    >(e)
                    &&& forall|j: int|
                        0 <= j < i ==> mapped_value(f, name, ValueView::Text(#[trigger] column[j])) is Ok
                },
        },
        forall|v: Cell|
            match f(v) {
                Ok(out) => #[trigger] mapped_value(f, name, ValueView::Text(v)) == Ok::<
                    ValueView,
                    ErrorView,
                >(ValueView::Text(out)),
                Err(e) => mapped_value(f, name, ValueView::Text(v)) == Err::<ValueView, ErrorView>(
                    e,
                ),
            },
{
    column_is_mapped_cell_by_cell(f, column);
    if let Err(e) = mapped_column(f, column) {
        let i = choose|i: int|
            {
                &&& 0 <= i < column.len()
                &&& f(#[trigger] column[i]) == Err::<Cell, ErrorView>(e)
                &&& forall|j: int| 0 <= j < i ==> f(#[trigger] column[j]) is Ok
            };
        assert(mapped_value(f, name, ValueView::Text(column[i])) == Err::<ValueView, ErrorView>(e));
    }
}

/// A value that is neither a text nor a column of texts is refused in the function's name.
pub proof fn other_values_are_refused(f: CellMap, name: Seq<char>, arg: ValueView)
    requires
        !(arg is Text),
        !(arg is TextArray),
    ensures
        mapped_value(f, name, arg) == Err::<ValueView, ErrorView>(
            ErrorView::UnexpectedArgumentType { function: name },
        ),
{
}

/// The content of a value is its texts, character for character, each in its place; the
/// empty text is not NULL.
pub proof fn content_is_kept(v: Option<String>, column: Vec<Option<String>>, i: int)
    ensures
        match v {
            Some(text) => ColumnarValue::Text(v)@ == ValueView::Text(Some(text@))
                && ColumnarValue::LargeText(v)@ == ValueView::LargeText(Some(text@))
                && ColumnarValue::Other(v)@ == ValueView::Other(Some(text@)),
            None => ColumnarValue::Text(v)@ == ValueView::Text(None) && ColumnarValue::LargeText(v)@
                == ValueView::LargeText(None) && ColumnarValue::Other(v)@ == ValueView::Other(None),
        },
        ColumnarValue::TextArray(column)@ is TextArray,
        ColumnarValue::TextArray(column)@->TextArray_0.len() == column@.len(),
        0 <= i < column@.len() ==> ColumnarValue::TextArray(column)@->TextArray_0[i] == (
        match column@[i] {
            Some(text) => Some(text@),
            None => None,
        }),
{
}

/// The arguments keep their number and their order, and a result its value or its error.
pub proof fn arguments_and_results_are_kept(
    args: Seq<ColumnarValue>,
    i: int,
    r: Result<ColumnarValue, PgError>,
)
    ensures
        values_of(args).len() == args.len(),
        0 <= i < args.len() ==> values_of(args)[i] == args[i]@,
        r matches Ok(v) ==> value_result(r) == Ok::<ValueView, ErrorView>(v@),
        r matches Err(e) ==> value_result(r) == Err::<ValueView, ErrorView>(e@),
{
}

/// Only a column can be of the wrong kind for a function of texts.
pub proof fn values_are_never_columns(v: ValueView)
    requires
        !(v is BooleanArray),
        !(v is OtherArray),
    ensures
        !is_non_text_array(v),
{
}

} // verus!
