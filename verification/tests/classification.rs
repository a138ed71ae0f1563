use pivotal_tracker_changelog::classify::{
    classify_fields, classify_responses, decode_tracker_response, RawFields,
};
use pivotal_tracker_changelog::types::TrackerResponse;

#[test]
fn story_response_from_enum_deserializes_correctly() {
    let raw = r#"{"kind":"story","id":1,"name":"some story title","url":"pivotal.tracker"}"#;
    let response: TrackerResponse = decode_tracker_response(raw);
    match response {
        TrackerResponse::StoryResponse(story) => {
            assert_eq!(story.kind, "story");
            assert_eq!(story.id, 1);
            assert_eq!(story.name, "some story title");
            assert_eq!(story.url, "pivotal.tracker");
        }
        _ => {
            panic!("deserialized to incorrect variant");
        }
    }
}

#[test]
fn error_response_from_enum_deserializes_correctly() {
    let raw = r#"{"kind":"error","code":"invalid_parameter","error":"One or more request parameters was missing or invalid."}"#;
    let response: TrackerResponse = decode_tracker_response(raw);
    match response {
        TrackerResponse::ErrorResponse(error) => {
            assert_eq!(error.kind, "error");
            assert_eq!(error.code, "invalid_parameter");
            assert_eq!(
                error.error,
                "One or more request parameters was missing or invalid."
            );
        }
        _ => {
            panic!("deserialized to incorrect variant");
        }
    }
}

#[test]
fn unreadable_body_classifies_as_failure() {
    let response = decode_tracker_response("this is not json at all");
    match response {
        TrackerResponse::ErrorResponse(error) => {
            assert_eq!(error.code, "unrecognized_response");
        }
        _ => panic!("an unreadable body must classify as a failure"),
    }
}

#[test]
fn body_outside_both_shapes_classifies_as_failure() {
    // valid JSON, but neither required-field set is complete
    let response = decode_tracker_response(r#"{"kind":"story","id":12}"#);
    match response {
        TrackerResponse::ErrorResponse(error) => {
            assert_eq!(error.code, "unrecognized_response");
        }
        _ => panic!("a body outside both shapes must classify as a failure"),
    }
}

#[test]
fn error_shape_keeps_optional_hints() {
    let raw = r#"{"kind":"error","code":"unauthorized","error":"no","requirement":"a token","possible_fix":"send one"}"#;
    match decode_tracker_response(raw) {
        TrackerResponse::ErrorResponse(error) => {
            assert_eq!(error.requirement.as_deref(), Some("a token"));
            assert_eq!(error.general_problem, None);
            assert_eq!(error.possible_fix.as_deref(), Some("send one"));
        }
        _ => panic!("deserialized to incorrect variant"),
    }
}

#[test]
fn item_shape_is_tried_before_error_shape() {
    // both required-field sets complete: the item shape wins
    let raw = r#"{"kind":"story","id":4,"name":"n","url":"u","code":"c","error":"e"}"#;
    match decode_tracker_response(raw) {
        TrackerResponse::StoryResponse(story) => assert_eq!(story.id, 4),
        _ => panic!("the item shape must be tried first"),
    }
}

#[test]
fn classify_fields_rejects_id_outside_range() {
    let fields = RawFields {
        kind: Some("story".to_owned()),
        id: Some(i64::from(i32::MAX) + 1),
        name: Some("n".to_owned()),
        url: Some("u".to_owned()),
        code: Some("c".to_owned()),
        error: Some("e".to_owned()),
        requirement: None,
        general_problem: None,
        possible_fix: None,
    };
    match classify_fields(fields) {
        TrackerResponse::ErrorResponse(error) => assert_eq!(error.code, "c"),
        _ => panic!("an id no story can hold must not classify as an item"),
    }
}

#[test]
fn transport_failures_do_not_abort_the_rest() {
    let bodies = vec![
        Ok(r#"{"kind":"story","id":9,"name":"a","url":"u"}"#.to_owned()),
        Err("connection refused".to_owned()),
        Ok(r#"{"kind":"story","id":2,"name":"b","url":"v"}"#.to_owned()),
    ];
    let outcomes = classify_responses(bodies);
    assert_eq!(outcomes.len(), 3);
    assert!(matches!(&outcomes[0], TrackerResponse::StoryResponse(s) if s.id == 9));
    assert!(matches!(&outcomes[1], TrackerResponse::ErrorResponse(_)));
    assert!(matches!(&outcomes[2], TrackerResponse::StoryResponse(s) if s.id == 2));
}

#[test]
fn transport_failure_carries_its_detail() {
    let bodies = vec![Err("connection timed out".to_owned())];
    let outcomes = classify_responses(bodies);
    assert_eq!(outcomes.len(), 1);
    match &outcomes[0] {
        TrackerResponse::ErrorResponse(error) => {
            assert_eq!(error.code, "transport_failure");
            assert_eq!(error.error, "connection timed out");
        }
        _ => panic!("a failed transport must classify as a failure"),
    }
}
