//! JSON texts, read and written by `serde_json`.

use vstd::prelude::*;

use crate::integer::{decimal, push_decimal};
use crate::text::strings_view;

verus! {

/// The document that `bytes` hold, written compactly.
pub uninterp spec fn json_document(bytes: Seq<u8>) -> Option<Seq<char>>;

/// The value of the member `key` of an object, written compactly.
pub uninterp spec fn json_member(object: Seq<char>, key: Seq<char>) -> Option<Seq<char>>;

/// The element `index` of an array, written compactly.
pub uninterp spec fn json_element(array: Seq<char>, index: int) -> Option<Seq<char>>;

/// What a text that is a string holds.
pub uninterp spec fn json_string(text: Seq<char>) -> Option<Seq<char>>;

/// The number that a text writes, where it is a whole one that fits 64 bits.
pub uninterp spec fn json_unsigned(text: Seq<char>) -> Option<u64>;

/// The text of a string.
pub uninterp spec fn json_quoted(s: Seq<char>) -> Seq<char>;

/// An object with one member set.
pub uninterp spec fn json_with(object: Seq<char>, key: Seq<char>, value: Seq<char>) -> Seq<char>;

/// An array with one element more.
pub uninterp spec fn json_pushed(array: Seq<char>, value: Seq<char>) -> Seq<char>;

pub open spec fn opt_text(s: Option<String>) -> Option<Seq<char>> {
    match s {
        Some(s) => Some(s@),
        None => None,
    }
}

/// The string that the member `key` of an object holds.
pub open spec fn string_member(object: Seq<char>, key: Seq<char>) -> Option<Seq<char>> {
    match json_member(object, key) {
        Some(t) => json_string(t),
        None => None,
    }
}

/// Whether a text is that of a string, of a whole number or of nothing.
pub open spec fn is_flat(text: Seq<char>) -> bool {
    json_string(text) is Some || text == "null"@ || exists|n: nat| text == #[trigger] decimal(n)
}

/// `serde_json::from_slice`: the document that the bytes hold, `None` where they
/// are none; what comes back is a function of the bytes.
#[verifier::external_body]
pub(crate) fn read_document(bytes: &[u8]) -> (r: Option<String>)
    ensures
        opt_text(r) == json_document(bytes@),
{
    let value: serde_json::Value = serde_json::from_slice(bytes).ok()?;
    Some(value.to_string())
}

/// `serde_json::Value::get` with a key: the member of that name, `None` where
/// there is none; a function of the two texts.
#[verifier::external_body]
pub(crate) fn member(object: &str, key: &str) -> (r: Option<String>)
    ensures
        opt_text(r) == json_member(object@, key@),
{
    let value: serde_json::Value = serde_json::from_str(object).ok()?;
    value.get(key).map(|v| v.to_string())
}

/// `serde_json::Value::get` with an index: the element there, `None` where there
/// is none; a function of the text and the index.
#[verifier::external_body]
pub(crate) fn element(array: &str, index: usize) -> (r: Option<String>)
    ensures
        opt_text(r) == json_element(array@, index as int),
{
    let value: serde_json::Value = serde_json::from_str(array).ok()?;
    value.get(index).map(|v| v.to_string())
}

/// `serde_json::Value::as_str`: what a string holds, `None` for any other text;
/// a function of the text.
#[verifier::external_body]
pub(crate) fn string(text: &str) -> (r: Option<String>)
    ensures
        opt_text(r) == json_string(text@),
{
    let value: serde_json::Value = serde_json::from_str(text).ok()?;
    value.as_str().map(|s| s.to_owned())
}

/// `serde_json::Value::as_u64`: the number that the text writes, `None` where it
/// writes none that fits; a function of the text.
#[verifier::external_body]
pub(crate) fn unsigned(text: &str) -> (r: Option<u64>)
    ensures
        r == json_unsigned(text@),
{
    let value: serde_json::Value = serde_json::from_str(text).ok()?;
    value.as_u64()
}

/// `serde_json::Value::String` as text: a function of the string, from which the
/// string is read back.
#[verifier::external_body]
pub(crate) fn quoted(s: &str) -> (r: String)
    ensures
        r@ == json_quoted(s@),
        json_string(r@) == Some(s@),
{
    serde_json::Value::String(s.to_owned()).to_string()
}

/// `serde_json::Map::insert`: the object with the member `key` set to `value`; a
/// function of the three texts. A string is read back as it was set, and where
/// the value is not nested, the strings of the other members stay.
#[verifier::external_body]
pub(crate) fn with_member(object: &str, key: &str, value: &str) -> (r: String)
    ensures
        r@ == json_with(object@, key@, value@),
        json_string(value@) matches Some(t) ==> string_member(r@, key@) == Some(t),
        is_flat(value@) ==> forall|k: Seq<char>|
            k != key@ ==> #[trigger] string_member(r@, k) == string_member(object@, k),
{
    let mut map: serde_json::Map<String, serde_json::Value> = serde_json::from_str(
        object,
    ).unwrap_or_default();
    map.insert(key.to_owned(), serde_json::from_str(value).unwrap_or_default());
    serde_json::Value::Object(map).to_string()
}

/// `Vec<serde_json::Value>` as text: the array with `value` behind its elements;
/// a function of the two texts.
#[verifier::external_body]
pub(crate) fn with_element(array: &str, value: &str) -> (r: String)
    ensures
        r@ == json_pushed(array@, value@),
{
    let mut items: Vec<serde_json::Value> = serde_json::from_str(array).unwrap_or_default();
    items.push(serde_json::from_str(value).unwrap_or_default());
    serde_json::Value::Array(items).to_string()
}

// ── Texts of values ──────────────────────────────────────────────────────────

/// The object with one member.
pub open spec fn json_one(key: Seq<char>, value: Seq<char>) -> Seq<char> {
    json_with("{}"@, key, value)
}

pub fn one_member(key: &str, value: &str) -> (r: String)
    ensures
        r@ == json_one(key@, value@),
        json_string(value@) matches Some(t) ==> string_member(r@, key@) == Some(t),
{
    with_member("{}", key, value)
}

/// The text of a number.
pub fn number_text(n: u64) -> (r: String)
    ensures
        r@ == decimal(n as nat),
{
    let mut r = String::new();
    push_decimal(&mut r, n);
    assert(r@ =~= decimal(n as nat));
    r
}

/// The array of the texts `items`.
pub open spec fn json_array(items: Seq<Seq<char>>) -> Seq<char>
    decreases items.len(),
{
    if items.len() == 0 {
        "[]"@
    } else {
        json_pushed(json_array(items.drop_last()), items.last())
    }
}

pub fn array_text(items: &Vec<String>) -> (r: String)
    ensures
        r@ == json_array(strings_view(items@)),
{
    let ghost all = strings_view(items@);
    let mut r = "[]".to_owned();
    let mut i: usize = 0;
    while i < items.len()
        invariant
            i <= items@.len(),
            all == strings_view(items@),
            r@ == json_array(all.take(i as int)),
        decreases items@.len() - i,
    {
        r = with_element(r.as_str(), items[i].as_str());
        i += 1;
        assert(all.take(i as int).drop_last() =~= all.take(i - 1));
    }
    assert(all.take(i as int) =~= all);
    r
}

/// The text of a truth value.
pub open spec fn json_bool(b: bool) -> Seq<char> {
    if b {
        "true"@
    } else {
        "false"@
    }
}

pub fn bool_text(b: bool) -> (r: &'static str)
    ensures
        r@ == json_bool(b),
{
    if b {
        "true"
    } else {
        "false"
    }
}

} // verus!
