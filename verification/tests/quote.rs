use pg_strings::error::PgError;
use pg_strings::quote::{pg_quote_literal, QuoteLiteralUDF, QuoteNullableUDF};
use pg_strings::value::{ArgumentTypes, ColumnarValue, DataType, Volatility};

fn text(s: &str) -> ColumnarValue {
    ColumnarValue::Text(Some(s.to_string()))
}

fn quote_literal(v: Option<&str>) -> Option<String> {
    let arg = ColumnarValue::Text(v.map(|s| s.to_string()));
    match QuoteLiteralUDF::default().invoke_with_args(&[arg]) {
        Ok(ColumnarValue::Text(v)) => v,
        other => panic!("{:?}", other),
    }
}

fn quote_nullable(v: Option<&str>) -> Option<String> {
    let arg = ColumnarValue::Text(v.map(|s| s.to_string()));
    match QuoteNullableUDF::default().invoke_with_args(&[arg]) {
        Ok(ColumnarValue::Text(v)) => v,
        other => panic!("{:?}", other),
    }
}

#[test]
fn quote_literal_basics() {
    assert_eq!(quote_literal(Some("hello")), Some("'hello'".into()));
    // Embedded single quote doubled; no backslash, so the plain form.
    assert_eq!(quote_literal(Some("a'b")), Some("'a''b'".into()));
    // A backslash: the escape form with quotes and backslashes doubled.
    assert_eq!(quote_literal(Some("a'b\\c")), Some("E'a''b\\\\c'".into()));
    assert_eq!(quote_literal(Some("plain\\slash")), Some("E'plain\\\\slash'".into()));
    assert_eq!(quote_literal(None), None);
}

#[test]
fn quote_nullable_null_is_string_null() {
    assert_eq!(quote_nullable(Some("hello")), Some("'hello'".into()));
    assert_eq!(quote_nullable(None), Some("NULL".into()));
    assert_eq!(quote_nullable(Some("a\\b")), Some("E'a\\\\b'".into()));
}

#[test]
fn quote_nullable_vectorized_batch() {
    let column = ColumnarValue::TextArray(vec![Some("a".to_string()), None]);
    assert_eq!(
        QuoteNullableUDF::default().invoke_with_args(&[column]),
        Ok(ColumnarValue::TextArray(vec![
            Some("'a'".to_string()),
            Some("NULL".to_string()),
        ]))
    );
}

#[test]
fn quote_literal_of_a_column_keeps_nulls() {
    let column = ColumnarValue::TextArray(vec![Some("it's".to_string()), None]);
    assert_eq!(
        QuoteLiteralUDF::default().invoke_with_args(&[column]),
        Ok(ColumnarValue::TextArray(vec![Some("'it''s'".to_string()), None]))
    );
}

#[test]
fn literals_of_edge_cases() {
    assert_eq!(pg_quote_literal(""), "''");
    assert_eq!(pg_quote_literal("'"), "''''");
    assert_eq!(pg_quote_literal("\\"), "E'\\\\'");
    assert_eq!(pg_quote_literal("'\\'"), "E'''\\\\'''");
    assert_eq!(pg_quote_literal("naïve"), "'naïve'");
    // The text NULL is told from the value NULL.
    assert_eq!(quote_nullable(Some("NULL")), Some("'NULL'".into()));
}

#[test]
fn quoting_rejects_other_types() {
    let err = QuoteLiteralUDF::default()
        .invoke_with_args(&[ColumnarValue::Boolean(Some(true))])
        .unwrap_err();
    assert_eq!(err, PgError::UnexpectedArgumentType { function: "quote_literal".to_string() });
    assert_eq!(err.message(), "quote_literal: unexpected argument type");
    let err = QuoteNullableUDF::default()
        .invoke_with_args(&[ColumnarValue::LargeText(None)])
        .unwrap_err();
    assert_eq!(err.message(), "quote_nullable: unexpected argument type");
    assert!(err.is_internal());
}

#[test]
fn quoting_declares_one_text() {
    let literal = QuoteLiteralUDF::default();
    let nullable = QuoteNullableUDF::default();
    assert_eq!(literal.name(), "quote_literal");
    assert_eq!(nullable.name(), "quote_nullable");
    let one = ArgumentTypes::OneOf(vec![vec![DataType::Utf8]]);
    assert_eq!(literal.signature().arguments, one);
    assert_eq!(nullable.signature().arguments, one);
    assert_eq!(literal.signature().volatility, Volatility::Immutable);
    assert_eq!(literal.return_type(&[]), Ok(DataType::Utf8));
    assert_eq!(nullable.return_type(&[]), Ok(DataType::Utf8));
    assert_eq!(literal.invoke_with_args(&[text("x")]), Ok(text("'x'")));
}
