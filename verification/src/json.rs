//! The trusted reader of a response body's fields.
//!
//! What a JSON body's fields are is a function of the body alone, but stating
//! it would mean writing out a JSON parser; the result is named instead
//! (`fields_of`), and the classifier's contracts speak of that name exactly.

use vstd::prelude::*;

use crate::classify::{RawFields, RawFieldsView};

verus! {

/// The fields both response shapes name, as a JSON reading of the body gives
/// them: a field is absent when the body is not a JSON object, does not
/// carry the key, or carries it with another type.
pub uninterp spec fn fields_of(body: Seq<char>) -> RawFieldsView;

/// Relies on serde_json: from_str::<Value> parses the body (None on any
/// parse error), Value::get reads a key from an object, Value::as_str and
/// Value::as_i64 read a string and an i64 out of a field. The reading is a
/// function of the body alone, named `fields_of`.
#[verifier::external_body]
pub(crate) fn read_fields(body: &str) -> (r: RawFields)
    ensures
        r@ == fields_of(body@),
{
    let parsed: Option<serde_json::Value> = serde_json::from_str(body).ok();
    let v = parsed.as_ref();
    let text = |key: &str| v.and_then(|v| v.get(key)).and_then(|f| f.as_str()).map(str::to_owned);
    RawFields {
        kind: text("kind"),
        id: v.and_then(|v| v.get("id")).and_then(|f| f.as_i64()),
        name: text("name"),
        url: text("url"),
        code: text("code"),
        error: text("error"),
        requirement: text("requirement"),
        general_problem: text("general_problem"),
        possible_fix: text("possible_fix"),
    }
}

} // verus!
