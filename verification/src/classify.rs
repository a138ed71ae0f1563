//! Classification of a remote lookup's response body.
//!
//! The service answers with one of two JSON shapes, distinguished by their
//! required fields and not by status code: an item record (`kind`, `id`,
//! `name`, `url`) or an error record (`kind`, `code`, `error`, plus optional
//! hints). The shapes are tried in that fixed order; a body outside both, or
//! one that is not JSON at all, classifies as a structured failure.

use vstd::prelude::*;

use crate::json::{fields_of, read_fields};
use crate::types::{
    ErrorResponse, ErrorResponseView, Story, StoryView, TrackerResponse, TrackerResponseView,
};

verus! {

/// Mathematical model of the fields a response body may carry.
pub struct RawFieldsView {
    pub kind: Option<Seq<char>>,
    pub id: Option<i64>,
    pub name: Option<Seq<char>>,
    pub url: Option<Seq<char>>,
    pub code: Option<Seq<char>>,
    pub error: Option<Seq<char>>,
    pub requirement: Option<Seq<char>>,
    pub general_problem: Option<Seq<char>>,
    pub possible_fix: Option<Seq<char>>,
}

/// The fields both response shapes name, each as read from the body: `None`
/// where the field is absent or of another type.
pub struct RawFields {
    pub kind: Option<String>,
    pub id: Option<i64>,
    pub name: Option<String>,
    pub url: Option<String>,
    pub code: Option<String>,
    pub error: Option<String>,
    pub requirement: Option<String>,
    pub general_problem: Option<String>,
    pub possible_fix: Option<String>,
}

impl View for RawFields {
    type V = RawFieldsView;

    open spec fn view(&self) -> RawFieldsView {
        RawFieldsView {
            kind: self.kind.deep_view(),
            id: self.id,
            name: self.name.deep_view(),
            url: self.url.deep_view(),
            code: self.code.deep_view(),
            error: self.error.deep_view(),
            requirement: self.requirement.deep_view(),
            general_problem: self.general_problem.deep_view(),
            possible_fix: self.possible_fix.deep_view(),
        }
    }
}

/// The item shape: all four required fields present, with an id a story can
/// hold.
pub open spec fn item_shaped(f: RawFieldsView) -> bool {
    &&& f.kind is Some
    &&& f.id is Some
    &&& f.name is Some
    &&& f.url is Some
    &&& i32::MIN <= f.id->Some_0 <= i32::MAX
}

/// The error shape: its three required fields present.
pub open spec fn error_shaped(f: RawFieldsView) -> bool {
    &&& f.kind is Some
    &&& f.code is Some
    &&& f.error is Some
}

/// The failure a response outside both shapes classifies as.
pub open spec fn unrecognized() -> TrackerResponseView {
    TrackerResponseView::ErrorResponse(
        ErrorResponseView {
            kind: "error"@,
            code: "unrecognized_response"@,
            error: "response body was not an item record or an error record"@,
            requirement: None,
            general_problem: None,
            possible_fix: None,
        },
    )
}

/// What a body with fields `f` classifies as: the item shape is tried first,
/// then the error shape, else the structured failure.
pub open spec fn spec_classify(f: RawFieldsView) -> TrackerResponseView {
    if item_shaped(f) {
        TrackerResponseView::StoryResponse(
            StoryView {
                kind: f.kind->Some_0,
                id: f.id->Some_0 as int,
                name: f.name->Some_0,
                url: f.url->Some_0,
            },
        )
    } else if error_shaped(f) {
        TrackerResponseView::ErrorResponse(
            ErrorResponseView {
                kind: f.kind->Some_0,
                code: f.code->Some_0,
                error: f.error->Some_0,
                requirement: f.requirement,
                general_problem: f.general_problem,
                possible_fix: f.possible_fix,
            },
        )
    } else {
        unrecognized()
    }
}

fn unrecognized_record() -> (e: ErrorResponse)
    ensures
        TrackerResponseView::ErrorResponse(e@) == unrecognized(),
{
    ErrorResponse {
        kind: String::from_str("error"),
        code: String::from_str("unrecognized_response"),
        error: String::from_str("response body was not an item record or an error record"),
        requirement: None,
        general_problem: None,
        possible_fix: None,
    }
}

/// Classifies read fields: exactly `spec_classify`.
pub fn classify_fields(f: RawFields) -> (r: TrackerResponse)
    ensures
        r@ == spec_classify(f@),
{
    let RawFields { kind, id, name, url, code, error, requirement, general_problem, possible_fix } =
        f;
    let id_ok = match &id {
        Some(v) => i32::MIN as i64 <= *v && *v <= i32::MAX as i64,
        None => false,
    };
    if id_ok && kind.is_some() && name.is_some() && url.is_some() {
        TrackerResponse::StoryResponse(
            Story {
                kind: kind.unwrap(),
                id: id.unwrap() as i32,
                name: name.unwrap(),
                url: url.unwrap(),
            },
        )
    } else if kind.is_some() && code.is_some() && error.is_some() {
        TrackerResponse::ErrorResponse(
            ErrorResponse {
                kind: kind.unwrap(),
                code: code.unwrap(),
                error: error.unwrap(),
                requirement,
                general_problem,
                possible_fix,
            },
        )
    } else {
        TrackerResponse::ErrorResponse(unrecognized_record())
    }
}

/// Classifies one response body: exactly the classification of the fields a
/// JSON reading of that body gives.
pub fn decode_tracker_response(body: &str) -> (r: TrackerResponse)
    ensures
        r@ == spec_classify(fields_of(body@)),
{
    let fields = read_fields(body);
    classify_fields(fields)
}

/// The failure a lookup whose transport failed classifies as, carrying the
/// transport's own error detail.
pub open spec fn transport_failure(detail: Seq<char>) -> TrackerResponseView {
    TrackerResponseView::ErrorResponse(
        ErrorResponseView {
            kind: "error"@,
            code: "transport_failure"@,
            error: detail,
            requirement: None,
            general_problem: None,
            possible_fix: None,
        },
    )
}

fn transport_failure_record(detail: &String) -> (e: ErrorResponse)
    ensures
        TrackerResponseView::ErrorResponse(e@) == transport_failure(detail@),
{
    ErrorResponse {
        kind: String::from_str("error"),
        code: String::from_str("transport_failure"),
        error: detail.clone(),
        requirement: None,
        general_problem: None,
        possible_fix: None,
    }
}

/// One outcome for every lookup handed in, in the same order, each decided
/// on its own: a delivered body (`Ok`) classifies as its fields say, a
/// failed transport (`Err`) becomes a failure carrying the transport's error
/// detail, and no element keeps the others from being classified.
pub fn classify_responses(bodies: Vec<Result<String, String>>) -> (r: Vec<TrackerResponse>)
    ensures
        r@.len() == bodies@.len(),
        forall|i: int|
            0 <= i < bodies@.len() && bodies@[i] is Ok ==> #[trigger] r@[i]@ == spec_classify(
                fields_of(bodies@[i]->Ok_0@),
            ),
        forall|i: int|
            0 <= i < bodies@.len() && bodies@[i] is Err ==> #[trigger] r@[i]@ == transport_failure(
                bodies@[i]->Err_0@,
            ),
{
    let mut out: Vec<TrackerResponse> = Vec::new();
    let mut k: usize = 0;
    while k < bodies.len()
        invariant
            k <= bodies@.len(),
            out@.len() == k,
            forall|i: int|
                0 <= i < k && bodies@[i] is Ok ==> #[trigger] out@[i]@ == spec_classify(
                    fields_of(bodies@[i]->Ok_0@),
                ),
            forall|i: int|
                0 <= i < k && bodies@[i] is Err ==> #[trigger] out@[i]@ == transport_failure(
                    bodies@[i]->Err_0@,
                ),
        decreases bodies@.len() - k,
    {
        let outcome = match &bodies[k] {
            Ok(body) => decode_tracker_response(body.as_str()),
            Err(detail) => TrackerResponse::ErrorResponse(transport_failure_record(detail)),
        };
        out.push(outcome);
        k = k + 1;
    }
    out
}

} // verus!
