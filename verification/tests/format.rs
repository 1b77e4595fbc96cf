use pg_strings::error::PgError;
use pg_strings::format::{
    format_spec, pg_format, pg_quote_ident, pg_quote_literal_value, scalar_to_opt_string,
    FormatUDF,
};
use pg_strings::number::{parse_decimal, parse_signed, write_numeral, write_signed};
use pg_strings::value::{ArgumentTypes, ColumnarValue, DataType, Volatility};

fn text(s: &str) -> ColumnarValue {
    ColumnarValue::Text(Some(s.to_string()))
}

fn call(args: &[ColumnarValue]) -> Option<String> {
    match FormatUDF::default().invoke_with_args(args) {
        Ok(ColumnarValue::Text(v)) => v,
        other => panic!("{:?}", other),
    }
}

fn fails(args: &[ColumnarValue]) -> PgError {
    FormatUDF::default().invoke_with_args(args).unwrap_err()
}

#[test]
fn format_basic_and_positional() {
    assert_eq!(call(&[text("Hello, %s!"), text("world")]), Some("Hello, world!".into()));
    assert_eq!(call(&[text("%2$s %1$s"), text("a"), text("b")]), Some("b a".into()));
    assert_eq!(call(&[text("100%%")]), Some("100%".into()));
    assert_eq!(
        call(&[text("table %I"), text("my table")]),
        Some("table \"my table\"".into())
    );
    assert_eq!(call(&[text("val %L"), text("it's")]), Some("val 'it''s'".into()));
}

#[test]
fn format_width_flags_star() {
    // Right-aligned; a leading 0 is part of the width.
    assert_eq!(call(&[text("[%10s]"), text("x")]), Some("[         x]".into()));
    assert_eq!(call(&[text("[%010s]"), text("x")]), Some("[         x]".into()));
    // Left-justified.
    assert_eq!(call(&[text("[%-10s]"), text("x")]), Some("[x         ]".into()));
    // Dynamic width.
    assert_eq!(
        call(&[text("[%*s]"), ColumnarValue::Int64(Some(5)), text("x")]),
        Some("[    x]".into())
    );
    // Position and width.
    assert_eq!(call(&[text("[%1$10s]"), text("x")]), Some("[         x]".into()));
    // Width applies after quoting.
    assert_eq!(call(&[text("[%10I]"), text("tbl")]), Some("[       tbl]".into()));
    assert_eq!(call(&[text("[%5L]"), text("ab")]), Some("[ 'ab']".into()));
    // Overlong values are not cut.
    assert_eq!(call(&[text("[%2s]"), text("abc")]), Some("[abc]".into()));
}

#[test]
fn format_rejects_unknown_specifier() {
    let err = fails(&[text("%d"), ColumnarValue::Int64(Some(1))]);
    assert_eq!(err, PgError::UnrecognizedSpecifier { specifier: 'd' });
    assert_eq!(
        err.message(),
        "format: unrecognized format specifier '%d' (Postgres allows only %s, %I, %L)"
    );
}

#[test]
fn sprintf_alias() {
    let f = FormatUDF::default();
    assert_eq!(f.name(), "format");
    assert_eq!(f.aliases(), vec!["sprintf"]);
    assert_eq!(call(&[text("Hello, %s!"), text("world")]), Some("Hello, world!".into()));
}

#[test]
fn negative_star_width_left_justifies() {
    assert_eq!(
        call(&[text("[%*s]"), ColumnarValue::Int32(Some(-5)), text("x")]),
        Some("[x    ]".into())
    );
    assert_eq!(
        call(&[text("[%-*s]"), text("+3"), text("x")]),
        Some("[x  ]".into())
    );
    // The automatic arguments go on behind the width.
    assert_eq!(
        call(&[text("%*s|%s"), text("2"), text("a"), text("b")]),
        Some(" a|b".into())
    );
    assert_eq!(
        call(&[text("%2$*s"), text("3"), text("a")]),
        Some("  a".into())
    );
}

#[test]
fn positions_take_no_automatic_argument() {
    assert_eq!(
        call(&[text("%1$s %s %1$s %s"), text("a"), text("b")]),
        Some("a a a b".into())
    );
}

#[test]
fn flags_and_widths_in_other_orders() {
    assert_eq!(call(&[text("[%--4s]"), text("x")]), Some("[x   ]".into()));
    // Digits before the flag are the width too.
    assert_eq!(call(&[text("[%4-s]"), text("x")]), Some("[x   ]".into()));
    assert_eq!(
        fails(&[text("[%4-5s]"), text("x")]),
        PgError::UnrecognizedSpecifier { specifier: '5' }
    );
    // Wider than a machine word: no width.
    assert_eq!(
        call(&[text("[%99999999999999999999s]"), text("x")]),
        Some("[x]".into())
    );
}

#[test]
fn null_arguments() {
    assert_eq!(call(&[text("[%s]"), ColumnarValue::Text(None)]), Some("[]".into()));
    assert_eq!(call(&[text("[%3s]"), ColumnarValue::Null]), Some("[   ]".into()));
    assert_eq!(call(&[text("[%I]"), ColumnarValue::Null]), Some("[\"\"]".into()));
    assert_eq!(call(&[text("[%L]"), ColumnarValue::Text(None)]), Some("[NULL]".into()));
    assert_eq!(call(&[text("[%s]"), ColumnarValue::Int32(None)]), Some("[]".into()));
    assert_eq!(call(&[text("[%L]"), ColumnarValue::Int64(None)]), Some("[NULL]".into()));
    assert_eq!(call(&[ColumnarValue::Text(None), text("x")]), None);
}

#[test]
fn backslashes_in_literals() {
    assert_eq!(call(&[text("%L"), text("a\\b")]), Some("E'a\\\\b'".into()));
    assert_eq!(call(&[text("[%8L]"), text("\\")]), Some("[   E'\\\\']".into()));
    let value = "'\\".to_string();
    assert_eq!(format_spec('L', Some(&value)), Ok("E'''\\\\'".to_string()));
    assert_eq!(
        pg_format("%2$L %1$L", &[Some("C:\\x".to_string()), None]),
        Ok("NULL E'C:\\\\x'".to_string())
    );
    assert_eq!(pg_quote_literal_value("'\\'"), "'''\\'''");
    assert_eq!(pg_quote_literal_value(""), "''");
}

#[test]
fn identifiers() {
    assert_eq!(pg_quote_ident("tbl_1"), "tbl_1");
    assert_eq!(pg_quote_ident("_x"), "_x");
    assert_eq!(pg_quote_ident(""), "\"\"");
    assert_eq!(pg_quote_ident("1x"), "\"1x\"");
    assert_eq!(pg_quote_ident("Tbl"), "\"Tbl\"");
    assert_eq!(pg_quote_ident("é"), "\"é\"");
    assert_eq!(pg_quote_ident("a\"b"), "\"a\"\"b\"");
}

#[test]
fn one_conversion() {
    let value = "x y".to_string();
    assert_eq!(format_spec('s', Some(&value)), Ok("x y".to_string()));
    assert_eq!(format_spec('I', Some(&value)), Ok("\"x y\"".to_string()));
    assert_eq!(format_spec('L', Some(&value)), Ok("'x y'".to_string()));
    assert_eq!(format_spec('s', None), Ok(String::new()));
    assert_eq!(format_spec('L', None), Ok("NULL".to_string()));
    assert_eq!(
        format_spec('%', None),
        Err(PgError::UnrecognizedSpecifier { specifier: '%' })
    );
}

#[test]
fn every_format_error() {
    let err = fails(&[]);
    assert_eq!(err, PgError::MissingFormatString);
    assert_eq!(err.message(), "format: requires at least a format string argument");
    assert!(!err.is_internal());
    let err = fails(&[ColumnarValue::Int64(Some(1))]);
    assert_eq!(err, PgError::FormatStringNotText);
    assert_eq!(err.message(), "format: first argument must be a text format string");
    assert!(err.is_internal());
    let err = fails(&[text("%99999999999999999999$s"), text("x")]);
    assert_eq!(err.message(), "format: invalid positional index '99999999999999999999'");
    assert_eq!(
        err,
        PgError::InvalidPositionalIndex { digits: "99999999999999999999".to_string() }
    );
    let err = fails(&[text("%0$s"), text("x")]);
    assert_eq!(err, PgError::ZeroPositionalIndex);
    assert_eq!(err.message(), "format: positional index must be >= 1");
    let err = fails(&[text("%*s")]);
    assert_eq!(err, PgError::MissingWidthArgument);
    assert_eq!(err.message(), "format: '*' width requires an argument");
    let err = fails(&[text("%*s"), ColumnarValue::Null, text("x")]);
    assert_eq!(err, PgError::NullWidthArgument);
    assert_eq!(err.message(), "format: '*' width argument must not be NULL");
    let err = fails(&[text("%*s"), text("a\"b"), text("x")]);
    assert_eq!(err, PgError::InvalidWidth { text: "a\"b".to_string() });
    assert_eq!(err.message(), "format: '*' width must be an integer, got \"a\\\"b\"");
    for fmt in ["%", "%1$", "%-", "%10"] {
        let err = fails(&[text(fmt), text("x")]);
        assert_eq!(err, PgError::IncompleteSpecifier);
        assert_eq!(err.message(), "format: incomplete format specifier");
    }
    let err = fails(&[text("%s %s"), text("x")]);
    assert_eq!(err, PgError::TooFewArguments { index: 1, supplied: 1 });
    assert_eq!(err.message(), "format: too few arguments (need at least 2, got 1)");
    // A missing argument is reported before an unknown conversion.
    let err = fails(&[text("%12$d")]);
    assert_eq!(err.message(), "format: too few arguments (need at least 12, got 0)");
}

#[test]
fn formatting_goes_from_left_to_right() {
    let args = [Some("a".to_string()), Some("b".to_string())];
    assert_eq!(pg_format("%s-", &args), Ok("a-".to_string()));
    assert_eq!(pg_format("%s-%s", &args), Ok("a-b".to_string()));
    assert_eq!(pg_format("no directive", &args), Ok("no directive".to_string()));
    assert_eq!(pg_format("", &args), Ok(String::new()));
    assert_eq!(pg_format("%%%%", &args), Ok("%%".to_string()));
    assert_eq!(pg_format("[%4s]", &[Some("né".to_string())]), Ok("[  né]".to_string()));
}

#[test]
fn arguments_as_texts() {
    assert_eq!(scalar_to_opt_string(&text("x")), Some("x".to_string()));
    assert_eq!(
        scalar_to_opt_string(&ColumnarValue::LargeText(Some("y".to_string()))),
        Some("y".to_string())
    );
    assert_eq!(
        scalar_to_opt_string(&ColumnarValue::Int32(Some(-7))),
        Some("-7".to_string())
    );
    assert_eq!(
        scalar_to_opt_string(&ColumnarValue::Int64(Some(i64::MIN))),
        Some("-9223372036854775808".to_string())
    );
    assert_eq!(
        scalar_to_opt_string(&ColumnarValue::Boolean(Some(true))),
        Some("true".to_string())
    );
    assert_eq!(
        scalar_to_opt_string(&ColumnarValue::Boolean(Some(false))),
        Some("false".to_string())
    );
    assert_eq!(scalar_to_opt_string(&ColumnarValue::Boolean(None)), None);
    assert_eq!(scalar_to_opt_string(&ColumnarValue::Other(None)), None);
    assert_eq!(
        scalar_to_opt_string(&ColumnarValue::Other(Some("1.5".to_string()))),
        Some("1.5".to_string())
    );
    assert_eq!(
        scalar_to_opt_string(&ColumnarValue::Other(Some("a NULL NULL".to_string()))),
        Some("a NULL NULL".to_string())
    );
    assert_eq!(
        scalar_to_opt_string(&ColumnarValue::Other(Some("NULL".to_string()))),
        Some("NULL".to_string())
    );
    // A column has no text of its own.
    assert_eq!(scalar_to_opt_string(&ColumnarValue::OtherArray), None);
    assert_eq!(
        scalar_to_opt_string(&ColumnarValue::TextArray(vec![Some("x".to_string())])),
        None
    );
}

#[test]
fn integers_survive_as_texts() {
    for n in [0i64, 1, -1, 42, -1000, i64::MAX, i64::MIN] {
        assert_eq!(write_signed(n).iter().collect::<String>(), n.to_string());
        assert_eq!(parse_signed(&write_signed(n)), Some(n));
    }
    for bad in ["", "+", "-", "1a", " 1", "--1", "9223372036854775808", "-9223372036854775809"] {
        let chars: Vec<char> = bad.chars().collect();
        assert_eq!(parse_signed(&chars), None, "{}", bad);
        assert!(bad.parse::<i64>().is_err());
    }
    let padded: Vec<char> = "007".chars().collect();
    assert_eq!(parse_decimal(&padded), Some(7));
    let large: Vec<char> = "18446744073709551616".chars().collect();
    assert_eq!(parse_decimal(&large), None);
    assert_eq!(parse_decimal(&[]), Some(0));
    assert_eq!(write_numeral(0xBEEF, 16).iter().collect::<String>(), "BEEF");
}

#[test]
fn format_declares_arguments_of_any_type() {
    let f = FormatUDF::default();
    assert_eq!(f.signature().arguments, ArgumentTypes::VariadicAny);
    assert_eq!(f.signature().volatility, Volatility::Immutable);
    assert_eq!(f.return_type(&[]), Ok(DataType::Utf8));
}
