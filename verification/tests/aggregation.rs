use pivotal_tracker_changelog::aggregate::aggregate;
use pivotal_tracker_changelog::types::{ErrorResponse, Story, TrackerResponse};

fn story(id: i32, name: &str, url: &str, kind: &str) -> TrackerResponse {
    TrackerResponse::StoryResponse(Story {
        kind: kind.to_owned(),
        id,
        name: name.to_owned(),
        url: url.to_owned(),
    })
}

fn failure(code: &str) -> TrackerResponse {
    TrackerResponse::ErrorResponse(ErrorResponse {
        kind: "error".to_owned(),
        code: code.to_owned(),
        error: "rejected".to_owned(),
        requirement: None,
        general_problem: None,
        possible_fix: None,
    })
}

fn ids_of(stories: &[Story]) -> Vec<i32> {
    stories.iter().map(|s| s.id).collect()
}

#[test]
fn aggregate_orders_by_id_regardless_of_input_order() {
    let orders: Vec<Vec<i32>> = vec![
        vec![5, 1, 3],
        vec![5, 3, 1],
        vec![1, 5, 3],
        vec![1, 3, 5],
        vec![3, 1, 5],
        vec![3, 5, 1],
    ];
    for order in orders {
        let outcomes: Vec<TrackerResponse> =
            order.iter().map(|&id| story(id, "n", "u", "story")).collect();
        let out = aggregate(outcomes);
        assert_eq!(ids_of(&out), vec![1, 3, 5]);
    }
}

#[test]
fn aggregate_collapses_same_identity_first_seen_wins() {
    let outcomes = vec![
        story(7, "same name", "first-url", "story"),
        story(7, "same name", "second-url", "chore"),
    ];
    let out = aggregate(outcomes);
    assert_eq!(out.len(), 1);
    assert_eq!(out[0].id, 7);
    assert_eq!(out[0].name, "same name");
    assert_eq!(out[0].url, "first-url");
    assert_eq!(out[0].kind, "story");
}

#[test]
fn aggregate_keeps_same_id_with_different_names() {
    // identity is id and name together: a shared id alone does not collapse
    let outcomes = vec![
        story(7, "one name", "u1", "story"),
        story(7, "another name", "u2", "story"),
    ];
    let out = aggregate(outcomes);
    assert_eq!(out.len(), 2);
    assert_eq!(out[0].name, "one name");
    assert_eq!(out[1].name, "another name");
}

#[test]
fn aggregate_discards_failures() {
    let outcomes = vec![
        failure("unauthorized"),
        story(2, "kept", "u", "story"),
        failure("not_found"),
    ];
    let out = aggregate(outcomes);
    assert_eq!(out.len(), 1);
    assert_eq!(out[0].id, 2);
}

#[test]
fn aggregate_is_idempotent_on_aggregated_input() {
    let outcomes = vec![
        story(5, "e", "u5", "story"),
        story(1, "a", "u1", "story"),
        story(3, "c", "u3", "story"),
        story(1, "a", "other", "chore"),
    ];
    let once = aggregate(outcomes);
    let again = aggregate(
        once.iter()
            .map(|s| {
                TrackerResponse::StoryResponse(Story {
                    kind: s.kind.clone(),
                    id: s.id,
                    name: s.name.clone(),
                    url: s.url.clone(),
                })
            })
            .collect(),
    );
    assert_eq!(ids_of(&again), ids_of(&once));
    assert_eq!(again.len(), once.len());
    for (a, b) in once.iter().zip(again.iter()) {
        assert_eq!(a.id, b.id);
        assert_eq!(a.name, b.name);
        assert_eq!(a.url, b.url);
        assert_eq!(a.kind, b.kind);
    }
}

#[test]
fn aggregate_of_empty_input_is_empty() {
    let out = aggregate(Vec::new());
    assert!(out.is_empty());
}

#[test]
fn story_equality_is_id_and_name() {
    let a = Story {
        kind: "story".to_owned(),
        id: 1,
        name: "n".to_owned(),
        url: "u1".to_owned(),
    };
    let b = Story {
        kind: "chore".to_owned(),
        id: 1,
        name: "n".to_owned(),
        url: "u2".to_owned(),
    };
    let c = Story {
        kind: "story".to_owned(),
        id: 2,
        name: "n".to_owned(),
        url: "u1".to_owned(),
    };
    assert_eq!(a, b);
    assert_ne!(a, c);
}
