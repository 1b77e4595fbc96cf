//! `normalize`, `casefold` and `unicode_assigned`: functions of the Unicode character
//! data.
//!
//! `casefold` is the simple lower-case mapping, one character for each: `ß` stays `ß`,
//! `İ` becomes `i`, and a sigma at the end of a word is mapped like any other.
//! `unicode_assigned` asks whether every character has a general category other than
//! unassigned; characters for private use have one.

use icu_casemap::CaseMapper;
use icu_properties::props::GeneralCategory;
use icu_properties::CodePointMapData;
use unicode_normalization::UnicodeNormalization;
use vstd::prelude::*;

use crate::error::{text_result, ErrorView, PgError};
use crate::text::{chars_of, string_from_chars};
use crate::value::{
    cell_of, column_of, is_non_text_array, map_value, mapped_value, one_or_two_texts, one_text,
    value_result, values_of, ArgumentTypesView, Cell, CellFunction, CellMap, ColumnarValue,
    DataType, Signature, ValueView, Volatility,
};

verus! {

/// A normalization form of Unicode.
#[derive(Debug, Clone, Copy, PartialEq, Eq, Structural)]
pub enum NormalForm {
    Nfc,
    Nfd,
    Nfkc,
    Nfkd,
}

/// Normalization Form C of a text.
pub uninterp spec fn nfc_of(text: Seq<char>) -> Seq<char>;

/// Normalization Form D of a text.
pub uninterp spec fn nfd_of(text: Seq<char>) -> Seq<char>;

/// Normalization Form KC of a text.
pub uninterp spec fn nfkc_of(text: Seq<char>) -> Seq<char>;

/// Normalization Form KD of a text.
pub uninterp spec fn nfkd_of(text: Seq<char>) -> Seq<char>;

/// The lower-case character that the simple case mapping gives.
pub uninterp spec fn simple_lowercase_of(c: char) -> char;

/// The number of a character's general category, as ICU counts them.
pub uninterp spec fn general_category_of(c: char) -> u8;

/// The general category of code points that no character has, `Cn`, by its ICU number.
pub const UNASSIGNED: u8 = 0;

/// A character of the ASCII range.
pub open spec fn is_ascii_char(c: char) -> bool {
    (c as int) < 0x80
}

/// A text of ASCII characters alone.
pub open spec fn is_ascii_text(text: Seq<char>) -> bool {
    forall|i: int| 0 <= i < text.len() ==> is_ascii_char(#[trigger] text[i])
}

/// An ASCII letter in lower case; any other character as it is.
pub open spec fn ascii_lower(c: char) -> char {
    if 'A' <= c <= 'Z' {
        (c as int - 'A' as int + 'a' as int) as char
    } else {
        c
    }
}

/// `unicode_normalization::UnicodeNormalization::nfc`: a function of the characters. The
/// result is in Normalization Form C, so it is its own such form: that is how the crate's
/// `is_nfc` defines the form. ASCII characters have no decomposition, are starters and do
/// not compose with each other, so a text of them is unchanged.
#[verifier::external_body]
fn nfc(s: &str) -> (r: String)
    ensures
        r@ == nfc_of(s@),
        nfc_of(r@) == r@,
        is_ascii_text(s@) ==> r@ == s@,
{
    s.nfc().collect()
}

/// `unicode_normalization::UnicodeNormalization::nfd`: a function of the characters. The
/// result is in Normalization Form D, so it is its own such form: that is how the crate's
/// `is_nfd` defines the form. ASCII characters have no decomposition, are starters and do
/// not compose with each other, so a text of them is unchanged.
#[verifier::external_body]
fn nfd(s: &str) -> (r: String)
    ensures
        r@ == nfd_of(s@),
        nfd_of(r@) == r@,
        is_ascii_text(s@) ==> r@ == s@,
{
    s.nfd().collect()
}

/// `unicode_normalization::UnicodeNormalization::nfkc`: a function of the characters. The
/// result is in Normalization Form KC, so it is its own such form: that is how the crate's
/// `is_nfkc` defines the form. ASCII characters have no decomposition, are starters and do
/// not compose with each other, so a text of them is unchanged.
#[verifier::external_body]
fn nfkc(s: &str) -> (r: String)
    ensures
        r@ == nfkc_of(s@),
        nfkc_of(r@) == r@,
        is_ascii_text(s@) ==> r@ == s@,
{
    s.nfkc().collect()
}

/// `unicode_normalization::UnicodeNormalization::nfkd`: a function of the characters. The
/// result is in Normalization Form KD, so it is its own such form: that is how the crate's
/// `is_nfkd` defines the form. ASCII characters have no decomposition, are starters and do
/// not compose with each other, so a text of them is unchanged.
#[verifier::external_body]
fn nfkd(s: &str) -> (r: String)
    ensures
        r@ == nfkd_of(s@),
        nfkd_of(r@) == r@,
        is_ascii_text(s@) ==> r@ == s@,
{
    s.nfkd().collect()
}

/// `icu_casemap::CaseMapperBorrowed::simple_lowercase`, on the data compiled into the
/// crate: a function of the character. It maps the ASCII capitals to the small letters
/// and leaves every other ASCII character as it is.
#[verifier::external_body]
fn simple_lowercase(c: char) -> (r: char)
    ensures
        r == simple_lowercase_of(c),
        is_ascii_char(c) ==> r == ascii_lower(c),
{
    CaseMapper::new().simple_lowercase(c)
}

/// `icu_properties::CodePointMapDataBorrowed::get` for the general category, on the data
/// compiled into the crate: a function of the character. The category is given by its
/// number.
#[verifier::external_body]
fn general_category(c: char) -> (category: u8)
    ensures
        category == general_category_of(c),
{
    CodePointMapData::<GeneralCategory>::new().get(c) as u8
}

/// An ASCII letter in upper case; any other character as it is.
pub open spec fn ascii_upper(c: char) -> char {
    if 'a' <= c <= 'z' {
        (c as int - 'a' as int + 'A' as int) as char
    } else {
        c
    }
}

/// The form of this name, in whatever case it is written. ASCII letters are all that
/// matters here: no other character has an upper-case mapping that occurs in one of the
/// four names.
pub open spec fn form_named(name: Seq<char>) -> Option<NormalForm> {
    let upper = Seq::new(name.len(), |i: int| ascii_upper(name[i]));
    if upper == "NFC"@ {
        Some(NormalForm::Nfc)
    } else if upper == "NFD"@ {
        Some(NormalForm::Nfd)
    } else if upper == "NFKC"@ {
        Some(NormalForm::Nfkc)
    } else if upper == "NFKD"@ {
        Some(NormalForm::Nfkd)
    } else {
        None
    }
}

/// A text in some normalization form.
pub open spec fn in_form(text: Seq<char>, form: NormalForm) -> Seq<char> {
    match form {
        NormalForm::Nfc => nfc_of(text),
        NormalForm::Nfd => nfd_of(text),
        NormalForm::Nfkc => nfkc_of(text),
        NormalForm::Nfkd => nfkd_of(text),
    }
}

/// A text in the form of this name, or an error where there is no such form.
pub open spec fn normalized(text: Seq<char>, form: Seq<char>) -> Result<Seq<char>, ErrorView> {
    match form_named(form) {
        Some(f) => Ok(in_form(text, f)),
        None => Err(ErrorView::UnsupportedForm { form }),
    }
}

/// Finds the form of this name.
pub fn find_form(name: &str) -> (form: Option<NormalForm>)
    ensures
        form == form_named(name@),
{
    let chars = chars_of(name);
    let mut out: Vec<char> = Vec::new();
    for i in 0..chars.len()
        invariant
            out@ == Seq::new(i as nat, |j: int| ascii_upper(chars@[j])),
    {
        let c = chars[i];
        if 'a' <= c && c <= 'z' {
            out.push((c as u8 - 32) as char);
        } else {
            out.push(c);
        }
    }
    let upper = string_from_chars(out);
    if upper == "NFC".to_string() {
        Some(NormalForm::Nfc)
    } else if upper == "NFD".to_string() {
        Some(NormalForm::Nfd)
    } else if upper == "NFKC".to_string() {
        Some(NormalForm::Nfkc)
    } else if upper == "NFKD".to_string() {
        Some(NormalForm::Nfkd)
    } else {
        None
    }
}

/// Normalizes `s` to the form of this name. To normalize the result again changes
/// nothing, and ASCII text is in every form already.
pub fn normalize_str(s: &str, form: &str) -> (r: Result<String, PgError>)
    ensures
        text_result(r) == normalized(s@, form@),
        form_named(form@) == Some(NormalForm::Nfc) ==> (r matches Ok(out) && out@ == nfc_of(s@)),
        form_named(form@) == Some(NormalForm::Nfd) ==> (r matches Ok(out) && out@ == nfd_of(s@)),
        form_named(form@) == Some(NormalForm::Nfkc) ==> (r matches Ok(out) && out@ == nfkc_of(
            s@,
        )),
        form_named(form@) == Some(NormalForm::Nfkd) ==> (r matches Ok(out) && out@ == nfkd_of(
            s@,
        )),
        form_named(form@) is None ==> (r matches Err(PgError::UnsupportedForm { form: name })
            && name@ == form@),
        r matches Ok(out) ==> normalized(out@, form@) == Ok::<Seq<char>, ErrorView>(out@),
        is_ascii_text(s@) && form_named(form@) is Some ==> text_result(r) == Ok::<
            Seq<char>,
            ErrorView,
        >(s@),
{
    match find_form(form) {
        Some(NormalForm::Nfc) => Ok(nfc(s)),
        Some(NormalForm::Nfd) => Ok(nfd(s)),
        Some(NormalForm::Nfkc) => Ok(nfkc(s)),
        Some(NormalForm::Nfkd) => Ok(nfkd(s)),
        None => Err(PgError::UnsupportedForm { form: form.to_string() }),
    }
}

/// The simple lower-case mapping of a text, character by character.
pub open spec fn lowercased(text: Seq<char>) -> Seq<char> {
    Seq::new(text.len(), |i: int| simple_lowercase_of(text[i]))
}

/// Maps every character to lower case. Among the ASCII characters the capitals become
/// the small letters and the others stay, whatever else the text holds.
pub fn casefold_str(s: &str) -> (r: String)
    ensures
        r@ == lowercased(s@),
        r@.len() == s@.len(),
        forall|i: int| 0 <= i < s@.len() ==> #[trigger] r@[i] == simple_lowercase_of(s@[i]),
        forall|i: int|
            0 <= i < s@.len() && 'A' <= s@[i] <= 'Z' ==> #[trigger] r@[i] as int == s@[i] as int
                + 32,
        forall|i: int|
            0 <= i < s@.len() && is_ascii_char(s@[i]) ==> #[trigger] r@[i] == ascii_lower(s@[i]),
        is_ascii_text(s@) ==> r@ == Seq::new(s@.len(), |i: int| ascii_lower(s@[i])),
{
    let chars = chars_of(s);
    let mut out: Vec<char> = Vec::new();
    for i in 0..chars.len()
        invariant
            out@ == lowercased(chars@.take(i as int)),
            forall|j: int|
                0 <= j < i && is_ascii_char(chars@[j]) ==> #[trigger] out@[j] == ascii_lower(
                    chars@[j],
                ),
    {
        out.push(simple_lowercase(chars[i]));
        assert(out@ =~= lowercased(chars@.take(i + 1)));
    }
    assert(chars@.take(chars@.len() as int) =~= chars@);
    string_from_chars(out)
}

/// Every character of `text` is assigned.
pub open spec fn all_assigned(text: Seq<char>) -> bool {
    forall|i: int| 0 <= i < text.len() ==> general_category_of(#[trigger] text[i]) != UNASSIGNED
}

/// Whether no general category in the list is the unassigned one.
pub fn are_assigned_categories(categories: &[u8]) -> (b: bool)
    ensures
        b == !categories@.contains(UNASSIGNED),
{
    for i in 0..categories.len()
        invariant
            forall|j: int| 0 <= j < i ==> categories@[j] != UNASSIGNED,
    {
        if categories[i] == UNASSIGNED {
            return false;
        }
    }
    true
}

/// Whether every character of `s` is assigned.
pub fn is_unicode_assigned(s: &str) -> (b: bool)
    ensures
        b == all_assigned(s@),
        b <==> (forall|i: int| 0 <= i < s@.len() ==> general_category_of(#[trigger] s@[i]) != 0),
{
    let chars = chars_of(s);
    let mut categories: Vec<u8> = Vec::new();
    for i in 0..chars.len()
        invariant
            categories@ == Seq::new(i as nat, |j: int| general_category_of(chars@[j])),
    {
        categories.push(general_category(chars[i]));
    }
    proof {
        if !categories@.contains(UNASSIGNED) {
            assert forall|i: int| 0 <= i < s@.len() implies general_category_of(#[trigger] s@[i])
                != UNASSIGNED by {
                assert(categories@.contains(categories@[i]));
            }
        }
    }
    are_assigned_categories(categories.as_slice())
}

/// What `normalize` makes of one value, given the name of the form. NULL stays NULL,
/// whatever the form.
pub open spec fn normalize_cell(form: Seq<char>) -> CellMap {
    |v: Cell|
        match v {
            Some(text) => match normalized(text, form) {
                Ok(out) => Ok(Some(out)),
                Err(e) => Err(e),
            },
            None => Ok(None),
        }
}

/// The form that the arguments of `normalize` ask for: NFC unless the second is a text.
pub open spec fn chosen_form(args: Seq<ValueView>) -> Seq<char> {
    if args.len() > 1 {
        match args[1] {
            ValueView::Text(Some(form)) => form,
            _ => "NFC"@,
        }
    } else {
        "NFC"@
    }
}

struct Normalizer {
    form: String,
}

impl CellFunction for Normalizer {
    closed spec fn cell_map(&self) -> CellMap {
        normalize_cell(self.form@)
    }

    closed spec fn function_name(&self) -> Seq<char> {
        "normalize"@
    }

    fn apply(&self, v: &Option<String>) -> (r: Result<Option<String>, PgError>) {
        match v {
            Some(text) => match normalize_str(text.as_str(), self.form.as_str()) {
                Ok(out) => Ok(Some(out)),
                Err(e) => Err(e),
            },
            None => Ok(None),
        }
    }

    fn report_name(&self) -> (name: String) {
        "normalize".to_string()
    }
}

/// The SQL function `normalize`.
#[derive(Debug, PartialEq, Eq, Hash, Structural)]
pub struct NormalizeUDF;

impl Default for NormalizeUDF {
    fn default() -> (f: Self)
        ensures
            f == NormalizeUDF,
    {
        NormalizeUDF
    }
}

impl NormalizeUDF {
    /// The name of the function.
    pub fn name(&self) -> (name: &'static str)
        ensures
            name@ == "normalize"@,
    {
        "normalize"
    }

    /// The arguments that the function takes.
    pub fn signature(&self) -> (s: Signature)
        ensures
            s.arguments@ == ArgumentTypesView::OneOf(
                seq![seq![DataType::Utf8], seq![DataType::Utf8, DataType::Utf8]],
            ),
            s.volatility == Volatility::Immutable,
    {
        one_or_two_texts()
    }

    /// The type of the result.
    pub fn return_type(&self, _arg_types: &[DataType]) -> (r: Result<DataType, PgError>)
        ensures
            r == Ok::<DataType, PgError>(DataType::Utf8),
    {
        Ok(DataType::Utf8)
    }

    /// Normalizes the first argument, cell by cell where it is a column, to the form that
    /// the second names.
    pub fn invoke_with_args(&self, args: &[ColumnarValue]) -> (r: Result<ColumnarValue, PgError>)
        requires
            args@.len() > 0,
            !is_non_text_array(args@[0]@),
        ensures
            value_result(r) == mapped_value(
                normalize_cell(chosen_form(values_of(args@))),
                "normalize"@,
                args@[0]@,
            ),
            args@[0] matches ColumnarValue::Text(Some(text)) ==> (args@.len() == 1 ==> (r matches Ok(
                ColumnarValue::Text(Some(out)),
            ) && out@ == nfc_of(text@))),
            args@[0] matches ColumnarValue::Text(Some(text)) ==> (args@.len() > 1 ==> (
            args@[1] matches ColumnarValue::Text(Some(form)) ==> match normalized(text@, form@) {
                Ok(normal) => r matches Ok(ColumnarValue::Text(Some(out))) && out@ == normal,
                Err(e) => r matches Err(error) && error@ == e,
            })),
            args@[0] matches ColumnarValue::Text(None) ==> (r matches Ok(
                ColumnarValue::Text(None),
            )),
    {
        proof {
            reveal_strlit("NFC");
            forms_have_these_names("NFC"@);
        }
        let form = if args.len() > 1 {
            match &args[1] {
                ColumnarValue::Text(Some(form)) => form.clone(),
                _ => "NFC".to_string(),
            }
        } else {
            "NFC".to_string()
        };
        map_value(&Normalizer { form }, &args[0])
    }
}

/// What `casefold` makes of one value. NULL stays NULL.
pub open spec fn casefold_cell() -> CellMap {
    |v: Cell|
        match v {
            Some(text) => Ok(Some(lowercased(text))),
            None => Ok(None),
        }
}

/// The SQL function `casefold`.
#[derive(Debug, PartialEq, Eq, Hash, Structural)]
pub struct CasefoldUDF;

impl CellFunction for CasefoldUDF {
    open spec fn cell_map(&self) -> CellMap {
        casefold_cell()
    }

    open spec fn function_name(&self) -> Seq<char> {
        "casefold"@
    }

    fn apply(&self, v: &Option<String>) -> (r: Result<Option<String>, PgError>) {
        match v {
            Some(text) => Ok(Some(casefold_str(text.as_str()))),
            None => Ok(None),
        }
    }

    fn report_name(&self) -> (name: String) {
        "casefold".to_string()
    }
}

impl Default for CasefoldUDF {
    fn default() -> (f: Self)
        ensures
            f == CasefoldUDF,
    {
        CasefoldUDF
    }
}

impl CasefoldUDF {
    /// The name of the function.
    pub fn name(&self) -> (name: &'static str)
        ensures
            name@ == "casefold"@,
    {
        "casefold"
    }

    /// The arguments that the function takes.
    pub fn signature(&self) -> (s: Signature)
        ensures
            s.arguments@ == ArgumentTypesView::OneOf(seq![seq![DataType::Utf8]]),
            s.volatility == Volatility::Immutable,
    {
        one_text()
    }

    /// The type of the result.
    pub fn return_type(&self, _arg_types: &[DataType]) -> (r: Result<DataType, PgError>)
        ensures
            r == Ok::<DataType, PgError>(DataType::Utf8),
    {
        Ok(DataType::Utf8)
    }

    /// Applies the function to the first argument, cell by cell where it is a column.
    pub fn invoke_with_args(&self, args: &[ColumnarValue]) -> (r: Result<ColumnarValue, PgError>)
        requires
            args@.len() > 0,
            !is_non_text_array(args@[0]@),
        ensures
            value_result(r) == mapped_value(casefold_cell(), "casefold"@, args@[0]@),
            args@[0] matches ColumnarValue::Text(Some(text)) ==> (r matches Ok(
                ColumnarValue::Text(Some(out)),
            ) && out@ == lowercased(text@)),
            args@[0] matches ColumnarValue::Text(None) ==> (r matches Ok(
                ColumnarValue::Text(None),
            )),
    {
        map_value(self, &args[0])
    }
}

/// What `unicode_assigned` makes of one value. NULL stays NULL.
pub open spec fn assigned_cell(v: Cell) -> Option<bool> {
    match v {
        Some(text) => Some(all_assigned(text)),
        None => None,
    }
}

/// What `unicode_assigned` gives on one argument: a column for a column and a value for
/// a value.
pub open spec fn assigned_value(arg: ValueView) -> Result<ValueView, ErrorView> {
    match arg {
        ValueView::TextArray(column) => Ok(
            ValueView::BooleanArray(Seq::new(column.len(), |i: int| assigned_cell(column[i]))),
        ),
        ValueView::Text(v) => Ok(ValueView::Boolean(assigned_cell(v))),
        _ => Err(ErrorView::UnexpectedArgumentType { function: "unicode_assigned"@ }),
    }
}

fn assigned_in(v: &Option<String>) -> (b: Option<bool>)
    ensures
        b == assigned_cell(cell_of(*v)),
{
    match v {
        Some(text) => Some(is_unicode_assigned(text.as_str())),
        None => None,
    }
}

fn assigned_cells(column: &Vec<Option<String>>) -> (out: Vec<Option<bool>>)
    ensures
        out@ == Seq::new(column@.len(), |i: int| assigned_cell(column_of(column@)[i])),
{
    let mut out: Vec<Option<bool>> = Vec::new();
    for i in 0..column.len()
        invariant
            out@ == Seq::new(i as nat, |j: int| assigned_cell(column_of(column@)[j])),
    {
        out.push(assigned_in(&column[i]));
    }
    out
}

/// The SQL function `unicode_assigned`.
#[derive(Debug, PartialEq, Eq, Hash, Structural)]
pub struct UnicodeAssignedUDF;

impl Default for UnicodeAssignedUDF {
    fn default() -> (f: Self)
        ensures
            f == UnicodeAssignedUDF,
    {
        UnicodeAssignedUDF
    }
}

impl UnicodeAssignedUDF {
    /// The name of the function.
    pub fn name(&self) -> (name: &'static str)
        ensures
            name@ == "unicode_assigned"@,
    {
        "unicode_assigned"
    }

    /// The arguments that the function takes.
    pub fn signature(&self) -> (s: Signature)
        ensures
            s.arguments@ == ArgumentTypesView::OneOf(seq![seq![DataType::Utf8]]),
            s.volatility == Volatility::Immutable,
    {
        one_text()
    }

    /// The type of the result.
    pub fn return_type(&self, _arg_types: &[DataType]) -> (r: Result<DataType, PgError>)
        ensures
            r == Ok::<DataType, PgError>(DataType::Boolean),
    {
        Ok(DataType::Boolean)
    }

    /// Applies the function to the first argument, cell by cell where it is a column.
    pub fn invoke_with_args(&self, args: &[ColumnarValue]) -> (r: Result<ColumnarValue, PgError>)
        requires
            args@.len() > 0,
            !is_non_text_array(args@[0]@),
        ensures
            value_result(r) == assigned_value(args@[0]@),
            args@[0] matches ColumnarValue::Text(Some(text)) ==> (r matches Ok(
                ColumnarValue::Boolean(Some(b)),
            ) && b == all_assigned(text@)),
            args@[0] matches ColumnarValue::Text(None) ==> (r matches Ok(
                ColumnarValue::Boolean(None),
            )),
    {
        match &args[0] {
            ColumnarValue::TextArray(column) => {
                Ok(ColumnarValue::BooleanArray(assigned_cells(column)))
            },
            ColumnarValue::Text(v) => Ok(ColumnarValue::Boolean(assigned_in(v))),
            _ => Err(PgError::UnexpectedArgumentType { function: "unicode_assigned".to_string() }),
        }
    }
}

/// Case folding gives one character for each, whatever stands around it.
pub proof fn casefold_is_per_character(first: Seq<char>, second: Seq<char>)
    ensures
        lowercased(first).len() == first.len(),
        lowercased(first + second) == lowercased(first) + lowercased(second),
{
    assert(lowercased(first + second) =~= lowercased(first) + lowercased(second));
}

/// A text is assigned where both its parts are; the empty text is.
pub proof fn assignment_is_per_character(first: Seq<char>, second: Seq<char>)
    ensures
        all_assigned(first + second) <==> all_assigned(first) && all_assigned(second),
        all_assigned(Seq::empty()),
{
    let whole = first + second;
    if all_assigned(whole) {
        assert forall|i: int| 0 <= i < first.len() implies general_category_of(#[trigger] first[i])
            != UNASSIGNED by {
            assert(whole[i] == first[i]);
        }
        assert forall|i: int|
            0 <= i < second.len() implies general_category_of(#[trigger] second[i])
            != UNASSIGNED by {
            assert(whole[first.len() + i] == second[i]);
        }
    }
}

/// The name of a form may be written in either case, and two spellings that differ in
/// case alone normalize alike.
pub proof fn form_names_ignore_case(text: Seq<char>, name: Seq<char>, other: Seq<char>)
    requires
        name.len() == other.len(),
        forall|i: int|
            0 <= i < name.len() ==> ascii_lower(#[trigger] name[i]) == ascii_lower(other[i]),
    ensures
        form_named(name) == form_named(other),
        form_named(name) is Some ==> normalized(text, name) == normalized(text, other),
{
    assert forall|i: int| 0 <= i < name.len() implies ascii_upper(#[trigger] name[i])
        == ascii_upper(other[i]) by {
        assert(ascii_lower(name[i]) == ascii_lower(other[i]));
    }
    assert(Seq::new(name.len(), |i: int| ascii_upper(name[i])) =~= Seq::new(
        other.len(),
        |i: int| ascii_upper(other[i]),
    ));
}

/// A second argument that is no text, NULL included, stands for NFC, as none does; a
/// NULL text stays NULL even where the form is not supported.
pub proof fn normalize_defaults(args: Seq<ValueView>, form: Seq<char>)
    requires
        args.len() > 0,
    ensures
        args.len() == 1 || !(args[1] is Text) || args[1]->Text_0 is None ==> form_named(
            chosen_form(args),
        ) == Some(NormalForm::Nfc),
        normalize_cell(form)(None) == Ok::<Cell, ErrorView>(None),
{
    reveal_strlit("NFC");
    let name = "NFC"@;
    assert(Seq::new(name.len(), |i: int| ascii_upper(name[i])) =~= name);
}

/// The names of the four forms, letter by letter, each in either case; there are no
/// others.
pub proof fn forms_have_these_names(name: Seq<char>)
    ensures
        form_named(name) == Some(NormalForm::Nfc) <==> name.len() == 3 && (name[0] == 'N' || name[0]
            == 'n') && (name[1] == 'F' || name[1] == 'f') && (name[2] == 'C' || name[2] == 'c'),
        form_named(name) == Some(NormalForm::Nfd) <==> name.len() == 3 && (name[0] == 'N' || name[0]
            == 'n') && (name[1] == 'F' || name[1] == 'f') && (name[2] == 'D' || name[2] == 'd'),
        form_named(name) == Some(NormalForm::Nfkc) <==> name.len() == 4 && (name[0] == 'N'
            || name[0] == 'n') && (name[1] == 'F' || name[1] == 'f') && (name[2] == 'K' || name[2]
            == 'k') && (name[3] == 'C' || name[3] == 'c'),
        form_named(name) == Some(NormalForm::Nfkd) <==> name.len() == 4 && (name[0] == 'N'
            || name[0] == 'n') && (name[1] == 'F' || name[1] == 'f') && (name[2] == 'K' || name[2]
            == 'k') && (name[3] == 'D' || name[3] == 'd'),
{
    reveal_strlit("NFC");
    reveal_strlit("NFD");
    reveal_strlit("NFKC");
    reveal_strlit("NFKD");
    assert("NFC"@[0] == 'N' && "NFC"@[1] == 'F' && "NFC"@[2] == 'C');
    assert("NFD"@[0] == 'N' && "NFD"@[1] == 'F' && "NFD"@[2] == 'D');
    assert("NFKC"@[0] == 'N' && "NFKC"@[1] == 'F' && "NFKC"@[2] == 'K' && "NFKC"@[3] == 'C');
    assert("NFKD"@[0] == 'N' && "NFKD"@[1] == 'F' && "NFKD"@[2] == 'K' && "NFKD"@[3] == 'D');
    lemma_upper_is(name, "NFC"@);
    lemma_upper_is(name, "NFD"@);
    lemma_upper_is(name, "NFKC"@);
    lemma_upper_is(name, "NFKD"@);
}

/// A name is some capitals in upper case where each letter is the capital or its small
/// letter.
proof fn lemma_upper_is(name: Seq<char>, capitals: Seq<char>)
    requires
        forall|i: int| 0 <= i < capitals.len() ==> 'A' <= #[trigger] capitals[i] <= 'Z',
    ensures
        Seq::new(name.len(), |i: int| ascii_upper(name[i])) == capitals <==> name.len()
            == capitals.len() && forall|i: int|
            0 <= i < name.len() ==> name[i] == #[trigger] capitals[i] || name[i] as int
                == capitals[i] as int + 32,
{
    let upper = Seq::new(name.len(), |i: int| ascii_upper(name[i]));
    if upper == capitals {
        assert forall|i: int| 0 <= i < name.len() implies name[i] == #[trigger] capitals[i]
            || name[i] as int == capitals[i] as int + 32 by {
            assert(upper[i] == ascii_upper(name[i]));
        }
    } else if name.len() == capitals.len() {
        assert(!(upper =~= capitals));
    }
}

/// Every text is brought to the form that was asked for, whatever characters it holds,
/// and an unknown form is reported as it was written.
pub proof fn texts_are_normalized_to_the_named_form(text: Seq<char>, form: Seq<char>)
    ensures
        form_named(form) == Some(NormalForm::Nfc) ==> normalized(text, form) == Ok::<
            Seq<char>,
            ErrorView,
        >(nfc_of(text)),
        form_named(form) == Some(NormalForm::Nfd) ==> normalized(text, form) == Ok::<
            Seq<char>,
            ErrorView,
        >(nfd_of(text)),
        form_named(form) == Some(NormalForm::Nfkc) ==> normalized(text, form) == Ok::<
            Seq<char>,
            ErrorView,
        >(nfkc_of(text)),
        form_named(form) == Some(NormalForm::Nfkd) ==> normalized(text, form) == Ok::<
            Seq<char>,
            ErrorView,
        >(nfkd_of(text)),
        form_named(form) is None ==> normalized(text, form) == Err::<Seq<char>, ErrorView>(
            ErrorView::UnsupportedForm { form },
        ),
{
}

/// A call of `normalize` with a text and the name of a form gives what the form of that
/// name is; without a name it gives Form C. NULL stays NULL.
pub proof fn normalize_of_a_value(text: Seq<char>, form: Seq<char>)
    ensures
        ({
            let bare = seq![ValueView::Text(Some(text))];
            let named = seq![ValueView::Text(Some(text)), ValueView::Text(Some(form))];
            &&& mapped_value(normalize_cell(chosen_form(bare)), "normalize"@, bare[0]) == Ok::<
                ValueView,
                ErrorView,
            >(ValueView::Text(Some(nfc_of(text))))
            &&& chosen_form(named) == form
            &&& match normalized(text, form) {
                Ok(out) => mapped_value(normalize_cell(form), "normalize"@, named[0]) == Ok::<
                    ValueView,
                    ErrorView,
                >(ValueView::Text(Some(out))),
                Err(e) => mapped_value(normalize_cell(form), "normalize"@, named[0]) == Err::<
                    ValueView,
                    ErrorView,
                >(e),
            }
            &&& mapped_value(normalize_cell(form), "normalize"@, ValueView::Text(None)) == Ok::<
                ValueView,
                ErrorView,
            >(ValueView::Text(None))
        }),
{
    reveal_strlit("NFC");
    forms_have_these_names("NFC"@);
}

/// Case folding maps every character by the simple lower-case mapping, ASCII or not.
pub proof fn casefold_maps_every_character(text: Seq<char>, i: int)
    requires
        0 <= i < text.len(),
    ensures
        lowercased(text)[i] == simple_lowercase_of(text[i]),
{
}

/// `casefold` maps every text, the empty one too, and leaves NULL.
pub proof fn casefold_of_a_value(text: Seq<char>)
    ensures
        mapped_value(casefold_cell(), "casefold"@, ValueView::Text(Some(text))) == Ok::<
            ValueView,
            ErrorView,
        >(ValueView::Text(Some(text.map_values(|c: char| simple_lowercase_of(c))))),
        mapped_value(casefold_cell(), "casefold"@, ValueView::Text(None)) == Ok::<
            ValueView,
            ErrorView,
        >(ValueView::Text(None)),
{
    assert(lowercased(text) =~= text.map_values(|c: char| simple_lowercase_of(c)));
}

/// One unassigned character, wherever it stands, makes the text unassigned; a text that
/// is not assigned holds one.
pub proof fn unassigned_texts_hold_an_unassigned_character(text: Seq<char>)
    ensures
        !all_assigned(text) <==> exists|i: int|
            0 <= i < text.len() && general_category_of(#[trigger] text[i]) == 0,
{
}

/// `unicode_assigned` answers for a value as for the same value in a column, NULL for
/// NULL, and refuses anything that is no text.
pub proof fn unicode_assigned_of_values(text: Seq<char>, column: Seq<Cell>, i: int)
    requires
        0 <= i < column.len(),
    ensures
        assigned_value(ValueView::Text(Some(text))) == Ok::<ValueView, ErrorView>(
            ValueView::Boolean(Some(all_assigned(text))),
        ),
        assigned_value(ValueView::Text(None)) == Ok::<ValueView, ErrorView>(
            ValueView::Boolean(None),
        ),
        assigned_value(ValueView::TextArray(column)) matches Ok(ValueView::BooleanArray(out))
            && out.len() == column.len() && assigned_value(ValueView::Text(column[i])) == Ok::<
            ValueView,
            ErrorView,
        >(ValueView::Boolean(out[i])),
        forall|v: ValueView|
            !(v is Text) && !(v is TextArray) ==> #[trigger] assigned_value(v) == Err::<
                ValueView,
                ErrorView,
            >(ErrorView::UnexpectedArgumentType { function: "unicode_assigned"@ }),
{
}

} // verus!
