//! The records a remote lookup can produce: a story (the tracked work item)
//! or a structured error, and the sum of the two.

use vstd::prelude::*;

verus! {

/// Mathematical model of a story record.
pub struct StoryView {
    pub kind: Seq<char>,
    pub id: int,
    pub name: Seq<char>,
    pub url: Seq<char>,
}

/// One remote item: numeric id (primary identity), category label, display
/// name and canonical URL. Two stories are equal iff id and name match; kind
/// and URL are not part of identity, so superficially different payloads for
/// the same item still collapse during aggregation.
#[derive(Debug)]
pub struct Story {
    pub kind: String,
    pub id: i32,
    pub name: String,
    pub url: String,
}

impl View for Story {
    type V = StoryView;

    open spec fn view(&self) -> StoryView {
        StoryView { kind: self.kind@, id: self.id as int, name: self.name@, url: self.url@ }
    }
}

impl DeepView for Story {
    type V = StoryView;

    open spec fn deep_view(&self) -> StoryView {
        self.view()
    }
}

/// The identity rule: two stories stand for the same item iff their ids and
/// display names agree.
pub open spec fn same_story(a: StoryView, b: StoryView) -> bool {
    a.id == b.id && a.name == b.name
}

impl PartialEq for Story {
    fn eq(&self, other: &Self) -> (r: bool) {
        self.id == other.id && self.name == other.name
    }
}

impl vstd::std_specs::cmp::PartialEqSpecImpl for Story {
    open spec fn obeys_eq_spec() -> bool {
        true
    }

    open spec fn eq_spec(&self, other: &Self) -> bool {
        same_story(self@, other@)
    }
}

/// Mathematical model of an error record.
pub struct ErrorResponseView {
    pub kind: Seq<char>,
    pub code: Seq<char>,
    pub error: Seq<char>,
    pub requirement: Option<Seq<char>>,
    pub general_problem: Option<Seq<char>>,
    pub possible_fix: Option<Seq<char>>,
}

/// A rejected lookup: a machine-readable code, a human-readable message, and
/// optional remediation hints. Never merged into story collections; only
/// reported and then discarded by aggregation.
#[derive(Debug)]
pub struct ErrorResponse {
    pub kind: String,
    pub code: String,
    pub error: String,
    pub requirement: Option<String>,
    pub general_problem: Option<String>,
    pub possible_fix: Option<String>,
}

impl View for ErrorResponse {
    type V = ErrorResponseView;

    open spec fn view(&self) -> ErrorResponseView {
        ErrorResponseView {
            kind: self.kind@,
            code: self.code@,
            error: self.error@,
            requirement: self.requirement.deep_view(),
            general_problem: self.general_problem.deep_view(),
            possible_fix: self.possible_fix.deep_view(),
        }
    }
}

impl DeepView for ErrorResponse {
    type V = ErrorResponseView;

    open spec fn deep_view(&self) -> ErrorResponseView {
        self.view()
    }
}

/// Model of an outcome: what one remote lookup ultimately produced.
pub enum TrackerResponseView {
    StoryResponse(StoryView),
    ErrorResponse(ErrorResponseView),
}

/// The shape every remote lookup produces: a well-formed story record or a
/// structured error record.
#[derive(Debug)]
pub enum TrackerResponse {
    StoryResponse(Story),
    ErrorResponse(ErrorResponse),
}

impl View for TrackerResponse {
    type V = TrackerResponseView;

    open spec fn view(&self) -> TrackerResponseView {
        match self {
            TrackerResponse::StoryResponse(s) => TrackerResponseView::StoryResponse(s@),
            TrackerResponse::ErrorResponse(e) => TrackerResponseView::ErrorResponse(e@),
        }
    }
}

impl DeepView for TrackerResponse {
    type V = TrackerResponseView;

    open spec fn deep_view(&self) -> TrackerResponseView {
        self.view()
    }
}

} // verus!
