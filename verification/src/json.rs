//! JSON values, held as the text they are written as.
use vstd::prelude::*;

use crate::error::{result_view, Error, Fault};
use crate::text::{opt_text, texts};

verus! {

/// What `serde_json` makes of `text`: `Ok` with the compact text of the value that it reads, or
/// `Err` with its message when it reads none.
pub uninterp spec fn json_reading(text: Seq<char>) -> Result<Seq<char>, Seq<char>>;

/// What a reading says, value or message.
pub open spec fn said(reading: Result<String, String>) -> Result<Seq<char>, Seq<char>> {
    match reading {
        Ok(written) => Ok(written@),
        Err(message) => Err(message@),
    }
}

/// `text` reads as the value that is written `value`.
pub open spec fn reads_as(text: Seq<char>, value: Seq<char>) -> bool {
    json_reading(text) matches Ok(written) && written == value
}

/// `text` cannot be read, and `message` says why.
pub open spec fn unreadable(text: Seq<char>, message: Seq<char>) -> bool {
    json_reading(text) matches Err(words) && words == message
}

/// No digit of `text` is followed by an exponent.
pub open spec fn no_exponents(text: Seq<char>) -> bool {
    forall|i: int|
        0 <= i < text.len() - 1 && '0' <= #[trigger] text[i] <= '9' ==> text[i + 1] != 'e'
            && text[i + 1] != 'E'
}

/// No digit of `text` is followed by a point.
pub open spec fn no_points(text: Seq<char>) -> bool {
    forall|i: int|
        0 <= i < text.len() - 1 && '0' <= #[trigger] text[i] <= '9' ==> text[i + 1] != '.'
}

/// The character is a digit or a point.
pub open spec fn numeric(c: char) -> bool {
    '0' <= c <= '9' || c == '.'
}

/// One of the seventeen characters from `i` on is neither a digit nor a point.
pub open spec fn number_ends(text: Seq<char>, i: int) -> bool {
    exists|j: int| i <= j < i + 17 && !numeric(#[trigger] text[j])
}

/// No more than sixteen digits and points stand in a row, so that a number with a fraction has at
/// most fifteen digits.
pub open spec fn short_numbers(text: Seq<char>) -> bool {
    forall|i: int| 0 <= i <= text.len() - 17 ==> #[trigger] number_ends(text, i)
}

/// No number in `text` has an exponent, and none has both a fraction and more than fifteen digits.
pub open spec fn plain_numbers(text: Seq<char>) -> bool {
    no_exponents(text) && (no_points(text) || short_numbers(text))
}

/// `text` holds no dollar sign. The keys that `serde_json` reserves for itself begin with one.
pub open spec fn no_dollars(text: Seq<char>) -> bool {
    !text.contains('$')
}

/// No more lists and objects are opened in `text` than `serde_json` reads inside each other. What
/// opens one in a string counts too.
pub open spec fn shallow(text: Seq<char>) -> bool {
    text.filter(|c: char| c == '[' || c == '{').len() <= 127
}

/// The value written as `text` is one that reading and writing keep: its numbers are plain, no
/// dollar sign stands in it, and it is not nested deeply.
pub open spec fn plain_value(text: Seq<char>) -> bool {
    plain_numbers(text) && no_dollars(text) && shallow(text)
}

/// Calls `serde_json::from_str` for a `serde_json::Value`, and writes the value or the error out
/// with its `Display`. Claimed of it: value and error depend on the text alone; and the text a
/// value is written as, if its numbers are plain, it has no dollar sign and it opens no more than
/// 127 lists and objects, reads as that value again. Whole numbers are exact, and up to fifteen
/// digits a fraction is read by one division of two exact doubles, to the double that it was
/// written from. Nothing is claimed of the latter for other numbers, since reading them may round;
/// nor with a dollar sign, since an object whose first key is one that the crate reserves for
/// itself is not read as an object, and writing sorts the keys; nor for deeper values, which such
/// an object can hold although they are too deep to be read.
#[verifier::external_body]
fn read_json(text: &str) -> (reading: Result<String, String>)
    ensures
        said(reading) == json_reading(text@),
        reading matches Ok(written) ==> plain_value(written@) ==> reads_back(written@),
{
    match serde_json::from_str::<serde_json::Value>(text) {
        Ok(value) => Ok(value.to_string()),
        Err(error) => Err(error.to_string()),
    }
}

/// A JSON value.
#[derive(Debug, Clone, PartialEq, Eq)]
pub struct Json {
    text: String,
}

impl View for Json {
    type V = Seq<char>;

    /// The compact text of the value.
    closed spec fn view(&self) -> Seq<char> {
        self.text@
    }
}

/// What an optional JSON value says.
pub open spec fn opt_json(value: Option<Json>) -> Option<Seq<char>> {
    match value {
        Some(json) => Some(json@),
        None => None,
    }
}

/// The text of JSON's `null`.
pub open spec fn null_text() -> Seq<char> {
    seq!['n', 'u', 'l', 'l']
}

/// A value that is read back, from the text it is written as, unchanged.
pub open spec fn reads_back(text: Seq<char>) -> bool {
    reads_as(text, text)
}

impl Json {
    /// The value that `text` says, or what is wrong with the text.
    pub fn parse(text: &str) -> (json: Result<Json, String>)
        ensures
            match json {
                Ok(value) => reads_as(text@, value@),
                Err(message) => unreadable(text@, message@),
            },
            json matches Ok(value) ==> plain_value(value@) ==> reads_back(value@),
    {
        match read_json(text) {
            Ok(text) => Ok(Json { text }),
            Err(message) => Err(message),
        }
    }

    /// JSON's `null`.
    pub fn null() -> (json: Json)
        ensures
            json@ == null_text(),
    {
        proof {
            reveal_strlit("null");
        }
        let json = Json { text: crate::text::text_of("null") };
        assert(json@ =~= null_text());
        json
    }

    /// The object without members.
    pub fn empty_object() -> (json: Json)
        ensures
            json@ == "{}"@,
    {
        Json { text: crate::text::text_of("{}") }
    }

    /// The compact text of the value.
    pub fn text(&self) -> (text: &str)
        ensures
            text@ == self@,
    {
        self.text.as_str()
    }

    /// The compact text of the value.
    pub fn into_text(self) -> (text: String)
        ensures
            text@ == self@,
    {
        self.text
    }

    /// The same value again.
    pub fn copy(&self) -> (json: Json)
        ensures
            json@ == self@,
    {
        Json { text: self.text.clone() }
    }
}

/// What the database says of a text column that holds no JSON.
pub open spec fn conversion_failure(message: Seq<char>) -> Seq<char> {
    "Conversion error from type Text at index: 0, "@ + message
}

/// What a stored JSON text reads as: the value, or the error of its column.
pub open spec fn stored_value(text: Seq<char>) -> Result<Seq<char>, Fault> {
    match json_reading(text) {
        Ok(value) => Ok(value),
        Err(message) => Err(Fault::Sqlite(conversion_failure(message))),
    }
}

/// Reads a stored JSON text.
pub fn parse_required(text: &str) -> (value: Result<Json, Error>)
    ensures
        result_view(value) == stored_value(text@),
{
    match Json::parse(text) {
        Ok(json) => Ok(json),
        Err(message) => Err(
            Error::Sqlite(
                crate::text::text_of("Conversion error from type Text at index: 0, ").concat(
                    message.as_str(),
                ),
            ),
        ),
    }
}

/// The text that `serde_json` writes a list of strings as.
pub uninterp spec fn list_text(list: Seq<Seq<char>>) -> Seq<char>;

/// What `serde_json` makes of `text` as a list of strings: `Ok` with the strings, or `Err` with its
/// message when it reads no such list.
pub uninterp spec fn list_reading(text: Seq<char>) -> Result<Seq<Seq<char>>, Seq<char>>;

/// `text` reads as the list of those strings.
pub open spec fn list_reads_as(text: Seq<char>, list: Seq<Seq<char>>) -> bool {
    list_reading(text) matches Ok(strings) && strings == list
}

/// What a reading of a list says, strings or message.
pub open spec fn said_list(reading: Result<Vec<String>, String>) -> Result<
    Seq<Seq<char>>,
    Seq<char>,
> {
    match reading {
        Ok(list) => Ok(texts(list@)),
        Err(message) => Err(message@),
    }
}

/// Calls `serde_json::to_string` for a list of strings, which cannot fail. Claimed of it: the text
/// depends on the strings alone, and reads as the list again.
#[verifier::external_body]
fn write_list(list: &Vec<String>) -> (text: String)
    ensures
        text@ == list_text(texts(list@)),
        list_reads_as(text@, texts(list@)),
{
    serde_json::to_string(list).unwrap_or_default()
}

/// Calls `serde_json::from_str` for a list of strings, and writes its error out with its
/// `Display`. Claimed of it: strings and error depend on the text alone.
#[verifier::external_body]
fn read_list(text: &str) -> (reading: Result<Vec<String>, String>)
    ensures
        said_list(reading) == list_reading(text@),
{
    serde_json::from_str::<Vec<String>>(text).map_err(|error| error.to_string())
}

/// Writes a list of strings as JSON.
pub fn list_json(list: &Vec<String>) -> (text: String)
    ensures
        text@ == list_text(texts(list@)),
        list_reads_back(texts(list@)),
{
    write_list(list)
}

/// A list that is read back, from the text it is written as, unchanged.
pub open spec fn list_reads_back(list: Seq<Seq<char>>) -> bool {
    list_reads_as(list_text(list), list)
}

/// What a stored list of strings reads as: the strings, or the error of its column.
pub open spec fn stored_list(text: Seq<char>) -> Result<Seq<Seq<char>>, Fault> {
    match list_reading(text) {
        Ok(list) => Ok(list),
        Err(message) => Err(Fault::Sqlite(conversion_failure(message))),
    }
}

/// Reads a stored list of strings.
pub fn parse_list(text: &str) -> (list: Result<Vec<String>, Error>)
    ensures
        match list {
            Ok(strings) => stored_list(text@) == Ok::<Seq<Seq<char>>, Fault>(texts(strings@)),
            Err(error) => stored_list(text@) == Err::<Seq<Seq<char>>, Fault>(error@),
        },
{
    match read_list(text) {
        Ok(list) => Ok(list),
        Err(message) => Err(
            Error::Sqlite(
                crate::text::text_of("Conversion error from type Text at index: 0, ").concat(
                    message.as_str(),
                ),
            ),
        ),
    }
}

/// What an optional stored JSON text reads as.
pub open spec fn stored_option(text: Option<Seq<char>>) -> Result<Option<Seq<char>>, Fault> {
    match text {
        None => Ok(None),
        Some(text) => match stored_value(text) {
            Ok(value) => Ok(Some(value)),
            Err(fault) => Err(fault),
        },
    }
}

/// Reads an optional stored JSON text.
pub fn parse_optional(text: &Option<String>) -> (value: Result<Option<Json>, Error>)
    ensures
        match value {
            Ok(json) => stored_option(opt_text(*text)) == Ok::<Option<Seq<char>>, Fault>(
                opt_json(json),
            ),
            Err(error) => stored_option(opt_text(*text)) == Err::<Option<Seq<char>>, Fault>(error@),
        },
{
    match text {
        None => Ok(None),
        Some(text) => match parse_required(text.as_str()) {
            Ok(json) => Ok(Some(json)),
            Err(error) => Err(error),
        },
    }
}

} // verus!
