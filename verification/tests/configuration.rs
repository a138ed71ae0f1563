use pivotal_tracker_changelog::commits::{collect_messages, Error as CommitsError};
use pivotal_tracker_changelog::fetcher::{Error as FetcherError, StoryFetcher};

#[test]
fn fetcher_accepts_encodable_credential() {
    let fetcher = StoryFetcher::new("some-api-token".to_owned()).unwrap();
    assert_eq!(fetcher.token(), "some-api-token");
}

#[test]
fn fetcher_rejects_credential_the_header_cannot_carry() {
    let result = StoryFetcher::new("bad\ntoken".to_owned());
    assert!(matches!(result, Err(FetcherError::InvalidToken)));
}

#[test]
fn collect_messages_keeps_ordered_pairs() {
    let pairs = vec![
        ("aaa111".to_owned(), Some("first message".to_owned())),
        ("bbb222".to_owned(), Some("second message".to_owned())),
    ];
    let out = collect_messages(pairs).unwrap();
    assert_eq!(
        out,
        vec![
            ("aaa111".to_owned(), "first message".to_owned()),
            ("bbb222".to_owned(), "second message".to_owned()),
        ]
    );
}

#[test]
fn collect_messages_rejects_absent_message() {
    let pairs = vec![
        ("aaa111".to_owned(), Some("fine".to_owned())),
        ("bbb222".to_owned(), None),
        ("ccc333".to_owned(), None),
    ];
    match collect_messages(pairs) {
        Err(CommitsError::MissingMessage(id)) => assert_eq!(id, "bbb222"),
        _ => panic!("a commit without a message must fail the whole range"),
    }
}

#[test]
fn collect_messages_rejects_empty_message() {
    let pairs = vec![("aaa111".to_owned(), Some(String::new()))];
    match collect_messages(pairs) {
        Err(CommitsError::MissingMessage(id)) => assert_eq!(id, "aaa111"),
        _ => panic!("a commit with an empty message must fail the whole range"),
    }
}
