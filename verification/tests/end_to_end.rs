use pivotal_tracker_changelog::aggregate::aggregate;
use pivotal_tracker_changelog::classify::classify_responses;
use pivotal_tracker_changelog::fetcher::StoryFetcher;
use pivotal_tracker_changelog::render::format_story_line;

#[test]
fn commit_range_to_release_note_lines() {
    let messages: Vec<String> = vec![
        "msg [#10]".to_owned(),
        "unrelated".to_owned(),
        "msg2 [#10]".to_owned(),
    ];
    let ids = StoryFetcher::story_ids_from_commit_messages(&messages[..]).unwrap();
    assert_eq!(ids, vec!["10".to_owned(), "10".to_owned()]);

    // the service resolves id 10 the same way both times
    let bodies: Vec<Result<String, String>> = ids
        .iter()
        .map(|_| Ok(r#"{"kind":"story","id":10,"name":"X","url":"u"}"#.to_owned()))
        .collect();
    let outcomes = classify_responses(bodies);
    let stories = aggregate(outcomes);

    let lines: Vec<String> = stories.iter().map(format_story_line).collect();
    assert_eq!(lines, vec!["- X [details](u)".to_owned()]);
}
