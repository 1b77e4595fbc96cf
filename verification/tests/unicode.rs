use pg_strings::error::PgError;
use pg_strings::unicode::{
    are_assigned_categories, casefold_str, find_form, is_unicode_assigned, normalize_str,
    CasefoldUDF, NormalForm, NormalizeUDF, UnicodeAssignedUDF, UNASSIGNED,
};
use pg_strings::unistr::{decode_unistr, UnistrUDF};
use pg_strings::value::{ArgumentTypes, ColumnarValue, DataType};

fn text(s: &str) -> ColumnarValue {
    ColumnarValue::Text(Some(s.to_string()))
}

fn casefold(s: &str) -> Option<String> {
    match CasefoldUDF::default().invoke_with_args(&[text(s)]) {
        Ok(ColumnarValue::Text(v)) => v,
        other => panic!("{:?}", other),
    }
}

fn unistr(s: &str) -> Option<String> {
    match UnistrUDF::default().invoke_with_args(&[text(s)]) {
        Ok(ColumnarValue::Text(v)) => v,
        other => panic!("{:?}", other),
    }
}

#[test]
fn normalize_nfc_default() {
    let f = NormalizeUDF::default();
    assert_eq!(f.invoke_with_args(&[text("café")]), Ok(text("café")));
    assert_eq!(
        f.invoke_with_args(&[ColumnarValue::Text(None)]),
        Ok(ColumnarValue::Text(None))
    );
}

#[test]
fn normalize_to_each_form() {
    let f = NormalizeUDF::default();
    assert_eq!(f.invoke_with_args(&[text("cafe\u{301}")]), Ok(text("caf\u{e9}")));
    assert_eq!(normalize_str("cafe\u{301}", "NFC"), Ok("caf\u{e9}".to_string()));
    assert_eq!(normalize_str("caf\u{e9}", "NFD"), Ok("cafe\u{301}".to_string()));
    assert_eq!(normalize_str("\u{fb01}e\u{301}", "NFKC"), Ok("fi\u{e9}".to_string()));
    assert_eq!(normalize_str("\u{fb01}\u{e9}", "NFKD"), Ok("fie\u{301}".to_string()));
    // The canonical forms keep the ligature.
    assert_eq!(normalize_str("\u{fb01}", "NFC"), Ok("\u{fb01}".to_string()));
    assert_eq!(normalize_str("\u{fb01}", "NFD"), Ok("\u{fb01}".to_string()));
}

#[test]
fn normalize_takes_the_form_in_any_case() {
    assert_eq!(find_form("nfc"), Some(NormalForm::Nfc));
    assert_eq!(find_form("Nfd"), Some(NormalForm::Nfd));
    assert_eq!(find_form("nFkC"), Some(NormalForm::Nfkc));
    assert_eq!(find_form("NFKD"), Some(NormalForm::Nfkd));
    assert_eq!(find_form(""), None);
    assert_eq!(find_form("NFC "), None);
    assert_eq!(find_form("NF"), None);
    let f = NormalizeUDF::default();
    assert_eq!(
        f.invoke_with_args(&[text("\u{e9}"), text("nfd")]),
        Ok(text("e\u{301}"))
    );
}

#[test]
fn only_ascii_letters_write_form_names() {
    let names = ["NFC", "NFD", "NFKC", "NFKD"];
    for code in 0x80..=0x10FFFFu32 {
        if let Some(c) = char::from_u32(code) {
            let upper: String = c.to_uppercase().collect();
            assert!(!names.iter().any(|name| name.contains(&upper)), "{:?}", c);
        }
    }
}

#[test]
fn normalize_defaults_to_nfc_without_a_text_form() {
    let f = NormalizeUDF::default();
    assert_eq!(
        f.invoke_with_args(&[text("e\u{301}"), ColumnarValue::Text(None)]),
        Ok(text("\u{e9}"))
    );
    assert_eq!(
        f.invoke_with_args(&[text("e\u{301}"), ColumnarValue::TextArray(vec![])]),
        Ok(text("\u{e9}"))
    );
}

#[test]
fn normalize_rejects_other_forms() {
    let f = NormalizeUDF::default();
    let err = f.invoke_with_args(&[text("x"), text("nfx")]).unwrap_err();
    assert_eq!(err, PgError::UnsupportedForm { form: "nfx".to_string() });
    assert_eq!(
        err.message(),
        "normalize: unsupported normalization form 'nfx'. Must be one of NFC, NFD, NFKC, NFKD."
    );
    assert!(!err.is_internal());
    // NULL is NULL whatever the form.
    assert_eq!(
        f.invoke_with_args(&[ColumnarValue::Text(None), text("nfx")]),
        Ok(ColumnarValue::Text(None))
    );
    assert_eq!(
        f.invoke_with_args(&[ColumnarValue::TextArray(vec![None]), text("nfx")]),
        Ok(ColumnarValue::TextArray(vec![None]))
    );
    assert_eq!(
        f.invoke_with_args(&[ColumnarValue::Null]).unwrap_err().message(),
        "normalize: unexpected argument type"
    );
}

#[test]
fn normalize_of_a_column() {
    let column = ColumnarValue::TextArray(vec![Some("e\u{301}".to_string()), None]);
    assert_eq!(
        NormalizeUDF::default().invoke_with_args(&[column]),
        Ok(ColumnarValue::TextArray(vec![Some("\u{e9}".to_string()), None]))
    );
}

#[test]
fn casefold_matches_postgres() {
    assert_eq!(casefold("Hello World"), Some("hello world".into()));
    // Not expanded to ss.
    assert_eq!(casefold("ß"), Some("ß".into()));
    // Long s and final sigma stay.
    assert_eq!(casefold("ſ"), Some("ſ".into()));
    assert_eq!(casefold("ς"), Some("ς".into()));
    // Capital sharp s and micro sign.
    assert_eq!(casefold("ẞ"), Some("ß".into()));
    assert_eq!(casefold("µ"), Some("µ".into()));
    // Dotted capital I: the simple mapping.
    assert_eq!(casefold("İ"), Some("i".into()));
    // Final sigma does not depend on the context.
    assert_eq!(casefold("ΟΔΟΣ"), Some("οδοσ".into()));
    assert_eq!(
        CasefoldUDF::default().invoke_with_args(&[ColumnarValue::Text(None)]),
        Ok(ColumnarValue::Text(None))
    );
}

#[test]
fn casefold_vectorized_batch() {
    let column =
        ColumnarValue::TextArray(vec![Some("A".to_string()), Some("ß".to_string()), None]);
    assert_eq!(
        CasefoldUDF::default().invoke_with_args(&[column]),
        Ok(ColumnarValue::TextArray(vec![
            Some("a".to_string()),
            Some("ß".to_string()),
            None,
        ]))
    );
}

#[test]
fn casefold_is_per_character() {
    let (first, second) = ("ΟΔΟΣ İ", "Σ!");
    assert_eq!(
        casefold_str(&format!("{}{}", first, second)),
        format!("{}{}", casefold_str(first), casefold_str(second))
    );
    assert_eq!(casefold_str(first).chars().count(), first.chars().count());
    assert_eq!(
        CasefoldUDF::default().invoke_with_args(&[ColumnarValue::Null]).unwrap_err().message(),
        "casefold: unexpected argument type"
    );
}

#[test]
fn ascii_text_is_in_every_form() {
    let ascii: String = (0u8..0x80).map(|b| b as char).collect();
    let backwards: String = ascii.chars().rev().collect();
    for form in ["NFC", "nfd", "Nfkc", "NFKd"] {
        assert_eq!(normalize_str(&ascii, form), Ok(ascii.clone()));
        assert_eq!(normalize_str(&backwards, form), Ok(backwards.clone()));
        for first in 0u8..0x80 {
            for second in 0u8..0x80 {
                let pair: String = [first as char, second as char].iter().collect();
                assert_eq!(normalize_str(&pair, form), Ok(pair));
            }
        }
    }
    assert!(normalize_str("a", "ascii").is_err());
}

#[test]
fn normalizing_again_changes_nothing() {
    for form in ["NFC", "NFD", "NFKC", "NFKD"] {
        for n in 0u32..0x30000 {
            let Some(c) = char::from_u32(n) else {
                continue;
            };
            let s: String = [c, '\u{323}', '\u{301}', '\u{1161}', '\u{11A8}'].iter().collect();
            let once = match normalize_str(&s, form) {
                Ok(once) => once,
                Err(e) => panic!("{:?}", e),
            };
            assert_eq!(normalize_str(&once, form), Ok(once.clone()), "{:X} {}", n, form);
            if n % 16 == 0 {
                assert_eq!(normalize_str(&once, &form.to_lowercase()), Ok(once));
            }
        }
    }
}

#[test]
fn casefold_of_ascii_is_its_lower_case() {
    let ascii: String = (0u8..0x80).map(|b| b as char).collect();
    assert_eq!(casefold_str(&ascii), ascii.to_ascii_lowercase());
    for b in 0u8..0x80 {
        let mixed = format!("\u{130}{}\u{3A3}", b as char);
        let folded: Vec<char> = casefold_str(&mixed).chars().collect();
        assert_eq!(folded.len(), 3);
        assert_eq!(folded[1], (b as char).to_ascii_lowercase());
    }
}

#[test]
fn unicode_assigned_uses_general_category() {
    let f = UnicodeAssignedUDF::default();
    assert_eq!(
        f.invoke_with_args(&[text("hello")]),
        Ok(ColumnarValue::Boolean(Some(true)))
    );
    // Private use is a category of its own.
    assert_eq!(
        f.invoke_with_args(&[text("\u{E000}")]),
        Ok(ColumnarValue::Boolean(Some(true)))
    );
    assert_eq!(
        f.invoke_with_args(&[ColumnarValue::Text(None)]),
        Ok(ColumnarValue::Boolean(None))
    );
}

#[test]
fn reserved_code_points_are_unassigned() {
    assert!(!is_unicode_assigned("\u{378}"));
    assert!(!is_unicode_assigned("a\u{378}b"));
    assert!(is_unicode_assigned(""));
    assert_eq!(UNASSIGNED, 0);
    assert!(are_assigned_categories(&[1, 2, 17]));
    assert!(!are_assigned_categories(&[1, 0, 17]));
    assert!(are_assigned_categories(&[]));
    let f = UnicodeAssignedUDF::default();
    let column = ColumnarValue::TextArray(vec![
        Some("ok".to_string()),
        None,
        Some("\u{378}".to_string()),
    ]);
    assert_eq!(
        f.invoke_with_args(&[column]),
        Ok(ColumnarValue::BooleanArray(vec![Some(true), None, Some(false)]))
    );
    assert_eq!(f.return_type(&[]), Ok(DataType::Boolean));
    assert_eq!(
        f.invoke_with_args(&[ColumnarValue::Null]).unwrap_err().message(),
        "unicode_assigned: unexpected argument type"
    );
}

#[test]
fn unistr_escapes() {
    assert_eq!(unistr(r"\u0041"), Some("A".into()));
    assert_eq!(unistr(r"\U00000041"), Some("A".into()));
    // Four digits without a marker.
    assert_eq!(unistr("a\\0062c"), Some("abc".into()));
    // Exactly six digits after a plus sign.
    assert_eq!(unistr("x\\+000061y"), Some("xay".into()));
    assert_eq!(unistr("hello"), Some("hello".into()));
    assert_eq!(
        UnistrUDF::default().invoke_with_args(&[ColumnarValue::Text(None)]),
        Ok(ColumnarValue::Text(None))
    );
    // Other backslash sequences are errors.
    for bad in ["a\\nb", "a\\\\b", "x\\+0061y"] {
        assert!(UnistrUDF::default().invoke_with_args(&[text(bad)]).is_err(), "{}", bad);
    }
}

#[test]
fn unistr_reports_what_is_wrong() {
    let err = decode_unistr("a\\nb").unwrap_err();
    assert_eq!(err, PgError::InvalidEscape { found: Some('n') });
    assert_eq!(
        err.message(),
        "unistr: invalid Unicode escape \\Some('n'); escapes must be \\XXXX, \\+XXXXXX, \\uXXXX, or \\UXXXXXXXX"
    );
    let err = decode_unistr("\\").unwrap_err();
    assert_eq!(err, PgError::InvalidEscape { found: None });
    assert_eq!(
        err.message(),
        "unistr: invalid Unicode escape \\None; escapes must be \\XXXX, \\+XXXXXX, \\uXXXX, or \\UXXXXXXXX"
    );
    let err = decode_unistr("x\\+0061y").unwrap_err();
    assert_eq!(
        err,
        PgError::ExpectedHexDigits { expected: 6, digits: "0061".to_string(), found: Some('y') }
    );
    assert_eq!(
        err.message(),
        "unistr: invalid Unicode escape (expected 6 hex digits, got \"0061\" then Some('y')); escapes must be \\XXXX, \\+XXXXXX, \\uXXXX, or \\UXXXXXXXX"
    );
    // The bare form has read its first digit already.
    let err = decode_unistr("\\00").unwrap_err();
    assert_eq!(
        err,
        PgError::ExpectedHexDigits { expected: 3, digits: "0".to_string(), found: None }
    );
    assert_eq!(
        err.message(),
        "unistr: invalid Unicode escape (expected 3 hex digits, got \"0\" then None); escapes must be \\XXXX, \\+XXXXXX, \\uXXXX, or \\UXXXXXXXX"
    );
    let err = decode_unistr("\\uD800").unwrap_err();
    assert_eq!(err, PgError::InvalidCodepoint { codepoint: 0xD800 });
    assert_eq!(err.message(), "unistr: invalid Unicode codepoint U+D800");
    let err = decode_unistr("\\U00110000").unwrap_err();
    assert_eq!(err.message(), "unistr: invalid Unicode codepoint U+110000");
    assert!(!err.is_internal());
    let err = PgError::InvalidCodepoint { codepoint: 0xA };
    assert_eq!(err.message(), "unistr: invalid Unicode codepoint U+000A");
    let err = PgError::InvalidEscape { found: Some('\'') };
    assert!(err.message().contains("\\Some('\\'')"));
}

#[test]
fn unistr_decodes_code_points_of_every_form() {
    for code in [0u32, 0x41, 0x7f, 0xe9, 0xD7FF, 0xE000, 0xFFFF] {
        let c = char::from_u32(code).unwrap().to_string();
        assert_eq!(decode_unistr(&format!("\\{:04x}", code)), Ok(c.clone()));
        assert_eq!(decode_unistr(&format!("\\u{:04X}", code)), Ok(c.clone()));
        assert_eq!(decode_unistr(&format!("\\+{:06x}", code)), Ok(c.clone()));
        assert_eq!(decode_unistr(&format!("\\U{:08X}", code)), Ok(c));
    }
    assert_eq!(decode_unistr("\\+01F600\\U0010FFFF"), Ok("\u{1F600}\u{10FFFF}".to_string()));
    assert_eq!(decode_unistr("\\00410"), Ok("A0".to_string()));
    assert_eq!(decode_unistr("\\UFFFFFFFF").unwrap_err().message(), "unistr: invalid Unicode codepoint U+FFFFFFFF");
}

#[test]
fn unistr_of_a_column_stops_at_the_first_error() {
    let f = UnistrUDF::default();
    let good = ColumnarValue::TextArray(vec![Some("\\0041".to_string()), None]);
    assert_eq!(
        f.invoke_with_args(&[good]),
        Ok(ColumnarValue::TextArray(vec![Some("A".to_string()), None]))
    );
    let bad = ColumnarValue::TextArray(vec![
        Some("a".to_string()),
        Some("\\x".to_string()),
        Some("\\y".to_string()),
    ]);
    assert_eq!(
        f.invoke_with_args(&[bad]),
        Err(PgError::InvalidEscape { found: Some('x') })
    );
    assert_eq!(
        f.invoke_with_args(&[ColumnarValue::Null]).unwrap_err().message(),
        "unistr: unexpected argument type"
    );
}

#[test]
fn unicode_functions_declare_texts() {
    let one = ArgumentTypes::OneOf(vec![vec![DataType::Utf8]]);
    assert_eq!(CasefoldUDF::default().signature().arguments, one);
    assert_eq!(UnicodeAssignedUDF::default().signature().arguments, one);
    assert_eq!(UnistrUDF::default().signature().arguments, one);
    assert_eq!(
        NormalizeUDF::default().signature().arguments,
        ArgumentTypes::OneOf(vec![
            vec![DataType::Utf8],
            vec![DataType::Utf8, DataType::Utf8],
        ])
    );
    assert_eq!(CasefoldUDF::default().name(), "casefold");
    assert_eq!(UnicodeAssignedUDF::default().name(), "unicode_assigned");
    assert_eq!(UnistrUDF::default().name(), "unistr");
    assert_eq!(NormalizeUDF::default().name(), "normalize");
}
