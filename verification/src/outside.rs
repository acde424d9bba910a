//! What the library takes from the standard library and from `serde_json` as given.

use vstd::prelude::*;
use vstd::utf8::{decode_utf8, valid_utf8};
use crate::numbers::number;
use crate::text::{all_ascii, ascii_lower};

verus! {

/// What `str::to_lowercase` makes of a text.
pub uninterp spec fn lowercase(s: Seq<char>) -> Seq<char>;

/// What `String::from_utf8_lossy` makes of bytes.
pub uninterp spec fn lossy(bytes: Seq<u8>) -> Seq<char>;

/// How the error of `usize::from_str_radix` is displayed.
pub uninterp spec fn radix_error(s: Seq<char>, radix: int) -> Seq<char>;

/// The text that `serde_json` finds under a key of a JSON object: `None` where the first text is
/// no JSON, no object, without the key, or where the value under the key is no string.
pub uninterp spec fn json_text(text: Seq<char>, key: Seq<char>) -> Option<Seq<char>>;

/// A text in small letters: known where it is ASCII, and otherwise what `str::to_lowercase` makes
/// of it.
pub open spec fn lowered(s: Seq<char>) -> Seq<char> {
    if all_ascii(s) {
        ascii_lower(s)
    } else {
        lowercase(s)
    }
}

/// The text that bytes stand for: known where they are UTF-8, and otherwise what
/// `String::from_utf8_lossy` makes of them.
pub open spec fn decoded(bytes: Seq<u8>) -> Seq<char> {
    if valid_utf8(bytes) {
        decode_utf8(bytes)
    } else {
        lossy(bytes)
    }
}

/// Calls `str::to_lowercase`. The result is a function of the text. On ASCII text it turns
/// capitals into small letters and leaves the rest alone; what it does with other characters
/// follows the Unicode tables and is not said here.
#[verifier::external_body]
pub(crate) fn to_lowercase(s: &str) -> (r: String)
    ensures
        r@ == lowercase(s@),
        all_ascii(s@) ==> r@ == ascii_lower(s@),
{
    s.to_lowercase()
}

/// Calls `String::from_utf8_lossy`. The result is a function of the bytes. Valid UTF-8 is decoded;
/// where invalid bytes become replacement characters is not said here.
#[verifier::external_body]
pub(crate) fn lossy_text(bytes: &[u8]) -> (r: String)
    ensures
        r@ == lossy(bytes@),
        valid_utf8(bytes@) ==> r@ == decode_utf8(bytes@),
{
    String::from_utf8_lossy(bytes).into_owned()
}

/// Calls `usize::from_str_radix` and displays its error. It accepts an optional `+` followed by at
/// least one digit and nothing else, where the number fits; the wording of the error is a function
/// of the text and the radix.
#[verifier::external_body]
pub(crate) fn parse_radix(s: &str, radix: u32) -> (r: Result<usize, String>)
    requires
        2 <= radix <= 36,
    ensures
        match r {
            Ok(n) => number(s@, radix as int) == Some(n as nat),
            Err(e) => e@ == radix_error(s@, radix as int) && match number(s@, radix as int) {
                Some(n) => n > usize::MAX,
                None => true,
            },
        },
{
    usize::from_str_radix(s, radix).map_err(|e| e.to_string())
}

/// Calls `serde_json::from_str` for a `serde_json::Value`, then `Value::get` and `Value::as_str`.
/// The result is a function of the two texts.
#[verifier::external_body]
pub(crate) fn json_text_field(text: &str, key: &str) -> (r: Option<String>)
    ensures
        match r {
            Some(t) => json_text(text@, key@) == Some(t@),
            None => json_text(text@, key@) is None,
        },
{
    let value: serde_json::Value = serde_json::from_str(text).ok()?;
    value.get(key).and_then(|field| field.as_str()).map(|found| found.to_string())
}

} // verus!
