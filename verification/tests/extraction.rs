use pivotal_tracker_changelog::extract::extract;
use pivotal_tracker_changelog::fetcher::StoryFetcher;

#[test]
fn filter_story_ids_from_commit_messages_correctly() {
    let commit_messages: Vec<String> = vec![
        "commit with id: [#1234]".to_owned(),
        "no story id here!".to_owned(),
        "another one with id: [#5678]".to_owned(),
        "message with three ids: [#9012], [finishes #3456], [#7890]".to_owned(),
    ];
    let mut story_ids =
        StoryFetcher::story_ids_from_commit_messages(&commit_messages[..]).unwrap();
    // sort result to make it easier to assert against
    story_ids.sort();

    assert_eq!(story_ids.len(), 5);
    assert_eq!(story_ids[0], "1234");
    assert_eq!(story_ids[1], "3456");
    assert_eq!(story_ids[2], "5678");
    assert_eq!(story_ids[3], "7890");
    assert_eq!(story_ids[4], "9012");
}

#[test]
fn extract_single_reference() {
    assert_eq!(extract("fix [#123]"), vec!["123".to_owned()]);
}

#[test]
fn extract_no_reference() {
    let ids = extract("no ref here");
    assert!(ids.is_empty());
}

#[test]
fn extract_two_references_in_order() {
    assert_eq!(
        extract("two: [#1], [finishes #2]"),
        vec!["1".to_owned(), "2".to_owned()]
    );
}

#[test]
fn extract_empty_message() {
    let ids = extract("");
    assert!(ids.is_empty());
}

#[test]
fn extract_keeps_duplicates_and_skips_malformed() {
    // duplicates are kept for aggregation to collapse later
    assert_eq!(
        extract("once [#7], and again [#7]"),
        vec!["7".to_owned(), "7".to_owned()]
    );
    // a bracket without digits, a missing hash, an unclosed token: no match
    let ids = extract("[#] [finishes 4] [#12");
    assert!(ids.is_empty());
}
