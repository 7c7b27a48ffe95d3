// SPDX-License-Identifier: Apache-2.0
//! JSON values, as `serde_json` holds them.
//!
//! A value is known by its compact text: the text without any whitespace
//! between its tokens.

use serde_json::Value;
use vstd::prelude::*;
use vstd::utf8;

use crate::text;

verus! {

/// `serde_json::Value`: nothing is known of a value but what the functions below
/// say.
#[verifier::external_type_specification]
#[verifier::external_body]
pub struct ExValue(serde_json::Value);

/// What a value holds: its compact text.
pub uninterp spec fn compact(value: Value) -> Seq<u8>;

/// The members of the object with this compact text, each by its key and with
/// its own compact text. What is no object has no members.
pub uninterp spec fn members(text: Seq<u8>) -> Map<Seq<char>, Seq<u8>>;

/// What decoding some bytes yields: the compact text of the value, or the text
/// of the fault.
pub uninterp spec fn decoded(bytes: Seq<u8>) -> Result<Seq<u8>, Seq<char>>;

/// The compact text of an object once a member is put in.
pub uninterp spec fn inserted(object: Seq<u8>, key: Seq<char>, member: Seq<u8>) -> Seq<u8>;

/// What every compact text is like: it is not empty, it starts with a token, and
/// control characters stand in it escaped.
pub open spec fn is_compact(text: Seq<u8>) -> bool {
    &&& text.len() > 0
    &&& text[0] != 0x20
    &&& forall|i: int| 0 <= i < text.len() ==> 0x20 <= #[trigger] text[i]
}

/// The text of an object, as opposed to that of another value.
pub open spec fn is_object_text(text: Seq<u8>) -> bool {
    text.len() > 0 && text[0] == 0x7b
}

/// The text of the null value.
pub open spec fn is_null_text(text: Seq<u8>) -> bool {
    text == utf8::encode_utf8("null"@)
}

/// The text of a whole number.
pub open spec fn numeral(n: nat) -> Seq<u8> {
    utf8::encode_utf8(text::decimal(n))
}

/// Numbers with the same text are the same.
pub proof fn lemma_numeral_injective(a: nat, b: nat)
    requires
        numeral(a) == numeral(b),
    ensures
        a == b,
{
    utf8::encode_utf8_decode_utf8(text::decimal(a));
    utf8::encode_utf8_decode_utf8(text::decimal(b));
    text::lemma_decimal_injective(a, b);
}

/// How deep a text may nest arrays and objects and still be decoded.
pub const MAX_DEPTH: u8 = 127;

/// A compact text holds, from `at` on, no number with a point or an exponent and
/// nests no deeper than can be decoded. The scan is within a string or not, and
/// within so many arrays and objects.
pub open spec fn is_exact_from(text: Seq<u8>, at: nat, in_string: bool, depth: int) -> bool
    decreases text.len() + 1 - at,
{
    if at >= text.len() {
        true
    } else {
        let byte = text[at as int];
        if in_string {
            if byte == 0x5c {
                is_exact_from(text, at + 2, true, depth)
            } else {
                is_exact_from(text, at + 1, byte != 0x22, depth)
            }
        } else if byte == 0x22 {
            is_exact_from(text, at + 1, true, depth)
        } else if byte == 0x2e || (byte == 0x65 && at > 0 && 0x30 <= text[at - 1] <= 0x39) {
            false
        } else if byte == 0x5b || byte == 0x7b {
            depth < MAX_DEPTH && is_exact_from(text, at + 1, false, depth + 1)
        } else if byte == 0x5d || byte == 0x7d {
            is_exact_from(text, at + 1, false, depth - 1)
        } else {
            is_exact_from(text, at + 1, false, depth)
        }
    }
}

/// A compact text that survives decoding for certain: its numbers are whole.
pub open spec fn is_exact(text: Seq<u8>) -> bool {
    is_exact_from(text, 0, false, 0)
}

/// `serde_json::from_slice`, into a [`Value`]: the outcome depends on the bytes
/// alone. A fault is taken by what `Display` writes of it.
#[verifier::external_body]
pub(crate) fn decode(bytes: &[u8]) -> (r: Result<Value, String>)
    ensures
        match r {
            Ok(value) => decoded(bytes@) == Ok::<Seq<u8>, Seq<char>>(compact(value)),
            Err(fault) => decoded(bytes@) == Err::<Seq<u8>, Seq<char>>(fault@),
        },
{
    match serde_json::from_slice(bytes) {
        Ok(value) => Ok(value),
        Err(e) => Err(e.to_string()),
    }
}

/// `serde_json::to_vec`, of a [`Value`]: its compact text, which never fails to
/// come. `serde_json::from_slice` reads a line with that text back as a value
/// with that text, where its numbers are whole and it does not nest too deep. Of
/// a text with other numbers that is left unsaid: a decoded floating-point number
/// may differ from the encoded one in its last digit.
#[verifier::external_body]
pub(crate) fn encode(value: &Value) -> (r: Result<Vec<u8>, String>)
    ensures
        match r {
            Ok(bytes) => {
                &&& bytes@ == compact(*value)
                &&& is_compact(bytes@)
                &&& is_exact(bytes@) ==> decoded(bytes@.push(10)) == Ok::<Seq<u8>, Seq<char>>(
                    bytes@,
                )
            },
            Err(_) => false,
        },
{
    match serde_json::to_vec(value) {
        Ok(bytes) => Ok(bytes),
        Err(e) => Err(e.to_string()),
    }
}

/// `Display` of a [`Value`], through `to_string`: its compact text.
#[verifier::external_body]
pub(crate) fn display(value: &Value) -> (shown: String)
    ensures
        utf8::encode_utf8(shown@) == compact(*value),
{
    value.to_string()
}

/// `Value::is_object`: the text of an object, and of nothing else, starts with
/// a brace.
#[verifier::external_body]
pub(crate) fn is_object(value: &Value) -> (yes: bool)
    ensures
        yes == is_object_text(compact(*value)),
{
    value.is_object()
}

/// `Value::is_null`: only the null value has its text; a string has quotes.
#[verifier::external_body]
pub(crate) fn is_null(value: &Value) -> (yes: bool)
    ensures
        yes == is_null_text(compact(*value)),
{
    value.is_null()
}

/// `Value::as_u64`: the number, if the value is a whole number in the range of
/// `u64`. The text of such a number is its decimal numeral; that of any other
/// number has a sign, a point or an exponent.
#[verifier::external_body]
pub(crate) fn as_u64(value: &Value) -> (r: Option<u64>)
    ensures
        match r {
            Some(n) => compact(*value) == numeral(n as nat),
            None => forall|n: u64| compact(*value) != #[trigger] numeral(n as nat),
        },
{
    value.as_u64()
}

/// `Value::get`, by a string: the member of an object under that key.
#[verifier::external_body]
pub(crate) fn get<'a>(value: &'a Value, key: &str) -> (r: Option<&'a Value>)
    ensures
        match r {
            Some(member) => {
                &&& members(compact(*value)).contains_key(key@)
                &&& members(compact(*value))[key@] == compact(*member)
            },
            None => !members(compact(*value)).contains_key(key@),
        },
{
    value.get(key)
}

/// `Clone` of a [`Value`]: the clone holds the same.
#[verifier::external_body]
pub(crate) fn clone(value: &Value) -> (r: Value)
    ensures
        compact(r) == compact(*value),
{
    value.clone()
}

/// `Value::from`, of a `usize`: its decimal numeral.
#[verifier::external_body]
pub(crate) fn from_usize(n: usize) -> (r: Value)
    ensures
        compact(r) == numeral(n as nat),
{
    Value::from(n)
}

/// `Map::insert`, on the members of an object: the member under `key` is now
/// `member`, whatever it was, and no other changes. The text that results
/// depends on the object's text, the key and the member's text alone. A whole
/// number adds neither depth nor a point nor an exponent.
#[verifier::external_body]
pub(crate) fn insert(object: &mut Value, key: &str, member: Value)
    requires
        is_object_text(compact(*old(object))),
    ensures
        compact(*final(object)) == inserted(compact(*old(object)), key@, compact(member)),
        is_object_text(compact(*final(object))),
        members(compact(*final(object))) == members(compact(*old(object))).insert(
            key@,
            compact(member),
        ),
        is_exact(compact(*old(object))) && (exists|n: nat|
            compact(member) == #[trigger] numeral(n)) ==> is_exact(compact(*final(object))),
{
    object.as_object_mut().expect("an object").insert(key.to_owned(), member);
}

} // verus!
