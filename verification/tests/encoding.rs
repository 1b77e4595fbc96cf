use pg_strings::encoding::{to_ascii_str, PgClientEncodingUDF, ToAsciiUDF, LATIN1_TO_ASCII};
use pg_strings::error::PgError;
use pg_strings::value::{ArgumentTypes, ColumnarValue, DataType, Volatility};

fn text(s: &str) -> ColumnarValue {
    ColumnarValue::Text(Some(s.to_string()))
}

fn to_ascii(s: &str) -> Option<String> {
    match ToAsciiUDF::default().invoke_with_args(&[text(s)]) {
        Ok(ColumnarValue::Text(v)) => v,
        other => panic!("{:?}", other),
    }
}

#[test]
fn pg_client_encoding_returns_utf8() {
    let f = PgClientEncodingUDF::default();
    assert_eq!(f.name(), "pg_client_encoding");
    assert_eq!(f.invoke_with_args(&[]), Ok(text("UTF8")));
    assert_eq!(f.signature().arguments, ArgumentTypes::Exact(vec![]));
    assert_eq!(f.signature().volatility, Volatility::Stable);
    assert_eq!(f.return_type(&[]), Ok(DataType::Utf8));
}

#[test]
fn to_ascii_matches_postgres() {
    // Accented letters fold to their base letter.
    assert_eq!(to_ascii("café"), Some("cafe".into()));
    assert_eq!(to_ascii("München"), Some("Munchen".into()));
    // Idiosyncratic mappings.
    assert_eq!(to_ascii("ß"), Some("B".into()));
    assert_eq!(to_ascii("Æ"), Some("A".into()));
    assert_eq!(to_ascii("æ"), Some("a".into()));
    assert_eq!(to_ascii("Þ"), Some("T".into()));
    assert_eq!(to_ascii("þ"), Some("t".into()));
    // Symbols.
    assert_eq!(to_ascii("©"), Some("C".into()));
    assert_eq!(to_ascii("£"), Some("L".into()));
    assert_eq!(to_ascii("¥"), Some("Y".into()));
    assert_eq!(to_ascii("×"), Some("x".into()));
    assert_eq!(to_ascii("÷"), Some("/".into()));
    assert_eq!(to_ascii("µ"), Some("u".into()));
    assert_eq!(to_ascii("¿"), Some("?".into()));
    // Unmapped characters become a space.
    assert_eq!(to_ascii("°"), Some(" ".into()));
    assert_eq!(to_ascii("¼"), Some(" ".into()));
    assert_eq!(to_ascii("Ð"), Some(" ".into()));
    // Outside the LATIN1 range: a space.
    assert_eq!(to_ascii("ā"), Some(" ".into()));
    assert_eq!(
        ToAsciiUDF::default().invoke_with_args(&[ColumnarValue::Text(None)]),
        Ok(ColumnarValue::Text(None))
    );
}

#[test]
fn to_ascii_vectorized_batch() {
    let column = ColumnarValue::TextArray(vec![
        Some("café".to_string()),
        Some("naïve".to_string()),
        None,
    ]);
    assert_eq!(
        ToAsciiUDF::default().invoke_with_args(&[column]),
        Ok(ColumnarValue::TextArray(vec![
            Some("cafe".to_string()),
            Some("naive".to_string()),
            None,
        ]))
    );
}

#[test]
fn to_ascii_ignores_the_encoding() {
    let f = ToAsciiUDF::default();
    assert_eq!(f.invoke_with_args(&[text("é"), text("LATIN2")]), Ok(text("e")));
    assert_eq!(
        f.signature().arguments,
        ArgumentTypes::OneOf(vec![
            vec![DataType::Utf8],
            vec![DataType::Utf8, DataType::Utf8],
        ])
    );
    assert_eq!(f.signature().volatility, Volatility::Immutable);
    assert_eq!(f.return_type(&[]), Ok(DataType::Utf8));
    assert_eq!(f.name(), "to_ascii");
}

#[test]
fn to_ascii_rejects_other_types() {
    let err = ToAsciiUDF::default().invoke_with_args(&[ColumnarValue::Int64(Some(1))]).unwrap_err();
    assert_eq!(err, PgError::UnexpectedArgumentType { function: "to_ascii".to_string() });
    assert_eq!(err.message(), "to_ascii: unexpected argument type");
    assert!(err.is_internal());
}

#[test]
fn every_code_point_becomes_one_ascii_character() {
    for code in 0..0x250u32 {
        let c = char::from_u32(code).unwrap();
        let out = to_ascii_str(&c.to_string());
        assert_eq!(out.chars().count(), 1);
        assert!(out.is_ascii());
        assert_eq!(to_ascii_str(&out), out);
        if code < 0x80 {
            assert_eq!(out, c.to_string());
        } else if code > 0xFF {
            assert_eq!(out, " ");
        }
    }
}

#[test]
fn the_table_in_full() {
    let table: String = LATIN1_TO_ASCII.iter().collect();
    let expected = concat_lines(&[
        "                                ",
        "  cL Y  ",
        "\"Ca  -R ",
        "    'u .",
        ",      ?",
        "AAAAAAAC",
        "EEEEIIII",
        " NOOOOOx",
        "OUUUUYTB",
        "aaaaaaac",
        "eeeeiiii",
        " nooooo/",
        "ouuuuyty",
    ]);
    assert_eq!(table, expected);
}

fn concat_lines(lines: &[&str]) -> String {
    lines.concat()
}
