//! How lists of text are kept in the library database: as JSON arrays of strings.
use vstd::prelude::*;

verus! {

/// The strings of a JSON array of strings, as `serde_json` reads the text into a
/// `Vec<String>`; `None` when the text is not such an array.
pub uninterp spec fn json_string_list(text: Seq<char>) -> Option<Seq<Seq<char>>>;

/// The JSON text that `serde_json::to_string` writes for a list of strings; `None` when it
/// reports an error.
pub uninterp spec fn json_strings_text(values: Seq<Seq<char>>) -> Option<Seq<char>>;

/// Reads a JSON array of strings with `serde_json::from_str::<Vec<String>>`.
#[verifier::external_body]
fn parse_string_list(text: &str) -> (res: Option<Vec<String>>)
    ensures
        match res {
            Some(v) => json_string_list(text@) == Some(v.deep_view()),
            None => json_string_list(text@) is None,
        },
{
    serde_json::from_str::<Vec<String>>(text).ok()
}

/// Writes a list of strings as JSON with `serde_json::to_string`. Reading the text back
/// with `serde_json::from_str::<Vec<String>>` gives the same strings: every string is
/// written as a JSON string literal, with the characters that JSON requires escaped.
#[verifier::external_body]
fn write_string_list(values: &Vec<String>) -> (res: Option<String>)
    ensures
        match res {
            Some(t) => json_strings_text(values.deep_view()) == Some(t@) && json_string_list(t@)
                == Some(values.deep_view()),
            None => json_strings_text(values.deep_view()) is None,
        },
{
    serde_json::to_string(values).ok()
}

/// The list kept in a column; text that is not a JSON array of strings reads as no values.
pub fn decode_values(text: &str) -> (res: Vec<String>)
    ensures
        res.deep_view() == match json_string_list(text@) {
            Some(v) => v,
            None => Seq::empty(),
        },
{
    match parse_string_list(text) {
        Some(v) => v,
        None => {
            let v: Vec<String> = Vec::new();
            assert(v.deep_view() =~= Seq::<Seq<char>>::empty());
            v
        },
    }
}

/// The column text of a list, `[]` should the writer fail. Whenever it succeeds, reading
/// the column back gives the list (see `decode_values`).
pub fn encode_values(values: &Vec<String>) -> (res: String)
    ensures
        res@ == match json_strings_text(values.deep_view()) {
            Some(t) => t,
            None => "[]"@,
        },
        json_strings_text(values.deep_view()) is Some ==> json_string_list(res@) == Some(
            values.deep_view(),
        ),
{
    match write_string_list(values) {
        Some(t) => t,
        None => String::from_str("[]"),
    }
}

} // verus!
