use repository_ledger::contract::{
    ChangedFiles, CommitMessage, CommitMessages, CommitObservation, EventSequence, Events,
    FileChange, FilePath, FileStatus, GitoliteUser, Name, ObjectIdentifier, PushObservation, Query,
    QueryLimit, QueryResult, ReceiveHookNotification, RecentRepositories, RefName, TextSearch,
    Timestamp,
};
use repository_ledger::text::contains_case_insensitive;
use repository_ledger::{Store, StoreSnapshot};

struct Push<'a> {
    repository: &'a str,
    received_at: &'a str,
    commits: Vec<(&'a str, &'a str, Vec<&'a str>)>,
}

fn push<'a>(
    repository: &'a str,
    received_at: &'a str,
    commits: Vec<(&'a str, &'a str, Vec<&'a str>)>,
) -> Push<'a> {
    Push {
        repository,
        received_at,
        commits,
    }
}

fn store_with(pushes: Vec<Push<'_>>) -> Store {
    let mut store = Store::open(StoreSnapshot::empty()).expect("store opens");
    for push in pushes {
        let commits = push
            .commits
            .into_iter()
            .map(|(identifier, message, paths)| CommitObservation {
                object_identifier: ObjectIdentifier::new(identifier),
                ref_name: RefName::new("refs/heads/main"),
                commit_timestamp: Timestamp::new(push.received_at),
                message: CommitMessage::new(message),
                changed_files: paths
                    .into_iter()
                    .map(|path| FileChange {
                        status: FileStatus::new("M"),
                        path: FilePath::new(path),
                        old_path: None,
                    })
                    .collect(),
            })
            .collect();
        store
            .record_push_observation(PushObservation {
                notification: ReceiveHookNotification {
                    repository_name: Name::new(push.repository),
                    gitolite_user: GitoliteUser::new("user"),
                    received_at: Timestamp::new(push.received_at),
                    daemon_socket_present: true,
                    ref_updates: Vec::new(),
                },
                commits,
            })
            .expect("push records");
    }
    store
}

fn sample() -> Store {
    store_with(vec![
        push("alpha", "20260101T000000Z", vec![("c1", "Fix the parser", vec!["src/b.rs", "src/a.rs"])]),
        push("beta", "20260103T000000Z", vec![("c2", "add docs", vec!["README.md"])]),
        push("alpha", "20260102T000000Z", vec![("c4", "FIX again", vec!["src/A.rs"]), ("c3", "fix more", vec![])]),
        push("gamma", "20260103T000000Z", vec![]),
    ])
}

fn messages(store: &Store, query: CommitMessages) -> Vec<String> {
    store
        .commit_messages(query)
        .expect("commit messages")
        .commits
        .iter()
        .map(|commit| commit.object_identifier.as_str().to_owned())
        .collect()
}

fn every_commit(limit: u64) -> CommitMessages {
    CommitMessages {
        repository_name: None,
        since_received_at: None,
        until_received_at: None,
        message_contains: None,
        limit: QueryLimit::new(limit),
    }
}

fn every_file(limit: u64) -> ChangedFiles {
    ChangedFiles {
        repository_name: None,
        since_received_at: None,
        until_received_at: None,
        path_contains: None,
        limit: QueryLimit::new(limit),
    }
}

fn paths(store: &Store, query: ChangedFiles) -> Vec<String> {
    store
        .changed_files(query)
        .expect("changed files")
        .files
        .iter()
        .map(|file| file.path.as_str().to_owned())
        .collect()
}

fn event_numbers(store: &Store, query: Events) -> Vec<u64> {
    store
        .repository_events(query)
        .expect("events")
        .events
        .iter()
        .map(|event| event.sequence.into_u64())
        .collect()
}

#[test]
fn events_are_filtered_by_repository_and_sequence_and_limited() {
    let store = sample();
    assert_eq!(
        event_numbers(
            &store,
            Events {
                repository_name: Some(Name::new("alpha")),
                since_sequence: None,
                limit: QueryLimit::new(10),
            }
        ),
        vec![1, 3]
    );
    assert_eq!(
        event_numbers(
            &store,
            Events {
                repository_name: None,
                since_sequence: Some(EventSequence::new(2)),
                limit: QueryLimit::new(10),
            }
        ),
        vec![3, 4]
    );
    assert_eq!(
        event_numbers(
            &store,
            Events {
                repository_name: Some(Name::new("alpha")),
                since_sequence: Some(EventSequence::new(1)),
                limit: QueryLimit::new(10),
            }
        ),
        vec![3]
    );
    assert_eq!(
        event_numbers(
            &store,
            Events {
                repository_name: None,
                since_sequence: None,
                limit: QueryLimit::new(2),
            }
        ),
        vec![1, 2]
    );
    assert!(event_numbers(
        &store,
        Events {
            repository_name: None,
            since_sequence: None,
            limit: QueryLimit::new(0),
        }
    )
    .is_empty());
}

#[test]
fn an_event_is_listed_as_soon_as_it_is_recorded() {
    let mut store = sample();
    let recorded = store
        .record_hook_notification(ReceiveHookNotification {
            repository_name: Name::new("delta"),
            gitolite_user: GitoliteUser::new("user"),
            received_at: Timestamp::new("20250101T000000Z"),
            daemon_socket_present: false,
            ref_updates: Vec::new(),
        })
        .expect("event records");
    assert_eq!(recorded.sequence.into_u64(), 5);
    assert_eq!(
        event_numbers(
            &store,
            Events {
                repository_name: None,
                since_sequence: Some(EventSequence::new(4)),
                limit: QueryLimit::new(1),
            }
        ),
        vec![5]
    );
}

#[test]
fn recent_repositories_are_counted_and_listed_latest_first() {
    let store = sample();
    let listing = store
        .recent_repositories(RecentRepositories {
            since_received_at: None,
            limit: QueryLimit::new(10),
        })
        .expect("recent repositories");
    let rows: Vec<(&str, &str, u64, u64)> = listing
        .repositories
        .iter()
        .map(|row| {
            (
                row.repository_name.as_str(),
                row.latest_received_at.as_str(),
                row.latest_sequence.into_u64(),
                row.push_count.into_u64(),
            )
        })
        .collect();
    assert_eq!(
        rows,
        vec![
            ("gamma", "20260103T000000Z", 4, 1),
            ("beta", "20260103T000000Z", 2, 1),
            ("alpha", "20260102T000000Z", 3, 2),
        ]
    );
}

#[test]
fn recent_repositories_count_only_the_window() {
    let store = sample();
    let listing = store
        .recent_repositories(RecentRepositories {
            since_received_at: Some(Timestamp::new("20260102T000000Z")),
            limit: QueryLimit::new(2),
        })
        .expect("recent repositories");
    let rows: Vec<(&str, u64)> = listing
        .repositories
        .iter()
        .map(|row| (row.repository_name.as_str(), row.push_count.into_u64()))
        .collect();
    assert_eq!(rows, vec![("gamma", 1), ("beta", 1)]);

    let wide = store
        .recent_repositories(RecentRepositories {
            since_received_at: Some(Timestamp::new("20260102T000000Z")),
            limit: QueryLimit::new(10),
        })
        .expect("recent repositories");
    assert_eq!(wide.repositories.len(), 3);
    assert_eq!(wide.repositories[2].push_count.into_u64(), 1);
}

#[test]
fn the_last_push_counts_even_where_its_time_is_earlier() {
    let store = store_with(vec![
        push("alpha", "20260105T000000Z", vec![]),
        push("alpha", "20260101T000000Z", vec![]),
    ]);
    let listing = store
        .recent_repositories(RecentRepositories {
            since_received_at: None,
            limit: QueryLimit::new(10),
        })
        .expect("recent repositories");
    assert_eq!(
        listing.repositories[0].latest_received_at.as_str(),
        "20260101T000000Z"
    );
    assert_eq!(listing.repositories[0].latest_sequence.into_u64(), 2);
}

#[test]
fn commits_are_listed_latest_first_and_then_by_identifier() {
    let store = sample();
    assert_eq!(messages(&store, every_commit(10)), vec!["c2", "c3", "c4", "c1"]);
    assert_eq!(messages(&store, every_commit(3)), vec!["c2", "c3", "c4"]);
}

#[test]
fn commit_searches_ignore_case_and_respect_the_window() {
    let store = sample();
    let mut query = every_commit(10);
    query.message_contains = Some(TextSearch::new("fIx"));
    assert_eq!(messages(&store, query), vec!["c3", "c4", "c1"]);

    let mut query = every_commit(10);
    query.since_received_at = Some(Timestamp::new("20260102T000000Z"));
    query.until_received_at = Some(Timestamp::new("20260102T000000Z"));
    assert_eq!(messages(&store, query), vec!["c3", "c4"]);

    let mut query = every_commit(10);
    query.repository_name = Some(Name::new("beta"));
    assert_eq!(messages(&store, query), vec!["c2"]);

    let mut query = every_commit(10);
    query.message_contains = Some(TextSearch::new("nothing like it"));
    assert!(messages(&store, query).is_empty());
}

#[test]
fn searches_lower_letters_beyond_ascii() {
    let store = store_with(vec![push("alpha", "20260101T000000Z", vec![("c1", "ÄRGER", vec![])])]);
    let mut query = every_commit(10);
    query.message_contains = Some(TextSearch::new("ärger"));
    assert_eq!(messages(&store, query), vec!["c1"]);
}

#[test]
fn files_are_listed_latest_first_and_then_by_path() {
    let store = sample();
    assert_eq!(
        paths(&store, every_file(10)),
        vec!["README.md", "src/A.rs", "src/a.rs", "src/b.rs"]
    );
    let mut query = every_file(10);
    query.path_contains = Some(TextSearch::new("SRC/A"));
    assert_eq!(paths(&store, query), vec!["src/A.rs", "src/a.rs"]);
    assert_eq!(paths(&store, every_file(1)), vec!["README.md"]);
}

#[test]
fn a_listed_file_names_its_commit() {
    let store = sample();
    let mut query = every_file(10);
    query.repository_name = Some(Name::new("beta"));
    let listing = store.changed_files(query).expect("changed files");
    assert_eq!(listing.files.len(), 1);
    let file = &listing.files[0];
    assert_eq!(file.commit_object_identifier.as_str(), "c2");
    assert_eq!(file.ref_name.as_str(), "refs/heads/main");
    assert_eq!(file.received_at.as_str(), "20260103T000000Z");
    assert_eq!(file.sequence.into_u64(), 2);
    assert_eq!(file.status.as_str(), "M");
    assert!(file.old_path.is_none());
}

#[test]
fn every_kind_of_query_is_executed() {
    let store = sample();
    let events = store
        .execute_query(Query::Events(Events {
            repository_name: None,
            since_sequence: None,
            limit: QueryLimit::new(10),
        }))
        .expect("events");
    assert!(matches!(&events, QueryResult::Events(listing) if listing.events.len() == 4));
    let commits = store
        .execute_query(Query::CommitMessages(every_commit(10)))
        .expect("commits");
    assert!(matches!(&commits, QueryResult::Commits(listing) if listing.commits.len() == 4));
    let files = store
        .execute_query(Query::ChangedFiles(every_file(10)))
        .expect("files");
    assert!(matches!(&files, QueryResult::ChangedFiles(listing) if listing.files.len() == 4));
    let recent = store
        .execute_query(Query::RecentRepositories(RecentRepositories {
            since_received_at: None,
            limit: QueryLimit::new(10),
        }))
        .expect("recent");
    assert!(
        matches!(&recent, QueryResult::RecentRepositories(listing) if listing.repositories.len() == 3)
    );
}

#[test]
fn listings_of_many_commits_stay_in_order() {
    let identifiers: Vec<String> = (0..200u32).map(|number| format!("{:08x}", number * 7919 % 200)).collect();
    let commits = identifiers
        .iter()
        .map(|identifier| (identifier.as_str(), "message", vec!["file"]))
        .collect();
    let store = store_with(vec![push("alpha", "20260101T000000Z", commits)]);
    let listed = messages(&store, every_commit(1000));
    let mut expected = identifiers.clone();
    expected.sort();
    assert_eq!(listed, expected);
}

#[test]
fn the_case_of_ascii_letters_does_not_matter() {
    let spellings = ["@Query[Z]", "@QUERY[z]", "@query[Z]"];
    for haystack in spellings {
        for needle in spellings {
            assert!(contains_case_insensitive(haystack, needle));
        }
        assert!(contains_case_insensitive(haystack, "y[Z"));
        assert!(contains_case_insensitive(haystack, ""));
        assert!(!contains_case_insensitive(haystack, "`query"));
        assert!(!contains_case_insensitive(haystack, "query{z}"));
    }
    assert!(contains_case_insensitive("", ""));
    assert!(!contains_case_insensitive("", "a"));
}
