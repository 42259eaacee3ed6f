use repository_ledger::client::Client;
use repository_ledger::contract::{
    Catalog, ChangedFiles, Class, CommitMessage, CommitMessages, CommitObservation, Events,
    FileChange, FilePath, FileStatus, GitoliteUser, Name, ObjectIdentifier, Operation,
    PushObservation, Query, QueryLimit, QueryResult, ReceiveHookNotification, RecentRepositories,
    RefName, RefUpdate, Registration, Reply, TextSearch, Timestamp,
};
use repository_ledger::error::EngineError;
use repository_ledger::frame::{
    AcceptedOutcome, BatchFailureReason, CommitStatus, FrameReply, NonEmpty, Request,
    RetryClassification, SubReply,
};
use repository_ledger::ledger::StoreWrite;
use repository_ledger::meta_contract;
use repository_ledger::meta_contract::{MirrorPolicy, MirrorTarget, Retirement, SpoolDirectoryPolicy};
use repository_ledger::model::Duplicate;
use repository_ledger::records::{padded_text, EngineRecord, StoredEvent, StoredRegistration};
use repository_ledger::{Error, LedgerHistoryRetention, Store, StoreSnapshot};

fn open_store() -> Store {
    Store::open(StoreSnapshot::empty()).expect("store opens")
}

fn notification(repository_name: &str, new_object_identifier: &str) -> ReceiveHookNotification {
    ReceiveHookNotification {
        repository_name: Name::new(repository_name),
        gitolite_user: GitoliteUser::new("gitolite-admin"),
        received_at: Timestamp::new("20260519T120000Z"),
        daemon_socket_present: false,
        ref_updates: vec![RefUpdate {
            old_object_identifier: ObjectIdentifier::new(
                "0000000000000000000000000000000000000000",
            ),
            new_object_identifier: ObjectIdentifier::new(new_object_identifier),
            ref_name: RefName::new("refs/heads/main"),
        }],
    }
}

fn commit(object_identifier: &str, ref_name: &str, message: &str) -> CommitObservation {
    CommitObservation {
        object_identifier: ObjectIdentifier::new(object_identifier),
        ref_name: RefName::new(ref_name),
        commit_timestamp: Timestamp::new("20260519T115900Z"),
        message: CommitMessage::new(message),
        changed_files: Vec::new(),
    }
}

fn push_observation(
    repository_name: &str,
    received_at: &str,
    commit_object_identifier: &str,
    message: &str,
    changed_files: Vec<FileChange>,
) -> PushObservation {
    let mut notification = notification(repository_name, commit_object_identifier);
    notification.received_at = Timestamp::new(received_at);
    PushObservation {
        notification,
        commits: vec![CommitObservation {
            object_identifier: ObjectIdentifier::new(commit_object_identifier),
            ref_name: RefName::new("refs/heads/main"),
            commit_timestamp: Timestamp::new(received_at),
            message: CommitMessage::new(message),
            changed_files,
        }],
    }
}

fn changed_file(status: &str, path: &str) -> FileChange {
    FileChange {
        status: FileStatus::new(status),
        path: FilePath::new(path),
        old_path: None,
    }
}

fn all_events() -> Events {
    Events {
        repository_name: None,
        since_sequence: None,
        limit: QueryLimit::new(10),
    }
}

fn sequences(store: &Store) -> Vec<u64> {
    store
        .repository_events(all_events())
        .expect("events list")
        .events
        .iter()
        .map(|event| event.sequence.into_u64())
        .collect()
}

#[test]
fn hook_notifications_are_committed_as_typed_events() {
    let mut store = open_store();

    let first = store
        .record_hook_notification(notification(
            "repository-ledger",
            "1111111111111111111111111111111111111111",
        ))
        .expect("first notification records");
    let second = store
        .record_hook_notification(notification(
            "signal-repository-ledger",
            "2222222222222222222222222222222222222222",
        ))
        .expect("second notification records");

    assert_eq!(first.sequence.into_u64(), 1);
    assert_eq!(second.sequence.into_u64(), 2);

    let listing = store.repository_events(all_events()).expect("events list");
    assert_eq!(listing.events.len(), 2);
    assert_eq!(
        listing.events[0].notification.repository_name.as_str(),
        "repository-ledger"
    );
}

#[test]
fn repository_catalog_is_typed_and_sorted() {
    let mut store = open_store();

    store
        .register_repository(Registration {
            repository_name: Name::new("signal-repository-ledger"),
            repository_class: Class::OrdinarySignalContract,
        })
        .expect("signal registration");
    let catalog = store
        .register_repository(Registration {
            repository_name: Name::new("repository-ledger"),
            repository_class: Class::RuntimeComponent,
        })
        .expect("runtime registration");

    let names: Vec<&str> = catalog
        .repositories
        .iter()
        .map(|registration| registration.repository_name.as_str())
        .collect();
    assert_eq!(names, vec!["repository-ledger", "signal-repository-ledger"]);
}

#[test]
fn push_observations_support_recent_repository_file_and_message_queries() {
    let mut store = open_store();

    store
        .record_push_observation(push_observation(
            "repository-ledger",
            "20260519T120000Z",
            "1111111111111111111111111111111111111111",
            "add repository query surface",
            vec![
                changed_file("M", "src/lib.rs"),
                changed_file("A", "tests/store.rs"),
            ],
        ))
        .expect("first observation");
    store
        .record_push_observation(push_observation(
            "signal-repository-ledger",
            "20260519T130000Z",
            "2222222222222222222222222222222222222222",
            "add commit message query records",
            vec![changed_file("M", "src/lib.rs")],
        ))
        .expect("second observation");

    let recent = store
        .recent_repositories(RecentRepositories {
            since_received_at: Some(Timestamp::new("20260519T000000Z")),
            limit: QueryLimit::new(10),
        })
        .expect("recent repositories");
    let recent_names: Vec<&str> = recent
        .repositories
        .iter()
        .map(|repository| repository.repository_name.as_str())
        .collect();
    assert_eq!(
        recent_names,
        vec!["signal-repository-ledger", "repository-ledger"]
    );

    let files = store
        .changed_files(ChangedFiles {
            repository_name: Some(Name::new("repository-ledger")),
            since_received_at: Some(Timestamp::new("20260519T000000Z")),
            until_received_at: Some(Timestamp::new("20260519T235959Z")),
            path_contains: Some(TextSearch::new("store")),
            limit: QueryLimit::new(10),
        })
        .expect("changed files");
    assert_eq!(files.files.len(), 1);
    assert_eq!(files.files[0].path.as_str(), "tests/store.rs");

    let commits = store
        .commit_messages(CommitMessages {
            repository_name: None,
            since_received_at: None,
            until_received_at: None,
            message_contains: Some(TextSearch::new("QUERY")),
            limit: QueryLimit::new(10),
        })
        .expect("commit messages");
    assert_eq!(commits.commits.len(), 2);
    assert_eq!(
        commits.commits[0].repository_name.as_str(),
        "signal-repository-ledger"
    );
}

#[test]
fn history_retention_keeps_the_newest_events_and_never_reuses_sequences() {
    let mut store = open_store();
    for identifier in ["1", "2", "3"] {
        store
            .record_hook_notification(notification("repository-ledger", identifier))
            .expect("hook event records");
    }

    assert_eq!(
        store
            .compact_history(LedgerHistoryRetention::new(1))
            .expect("history compacts"),
        2
    );
    let retained = store.repository_events(all_events()).expect("events list");
    assert_eq!(retained.events.len(), 1);
    let next = store
        .record_hook_notification(notification("repository-ledger", "4"))
        .expect("new event records after compaction");
    assert!(next.sequence.into_u64() > retained.events[0].sequence.into_u64());
}

#[test]
fn ordinary_nexus_runner_rejects_multi_operation_batches_before_commit() {
    let mut store = open_store();

    let mut payloads = NonEmpty::single(Operation::Receive(notification(
        "repository-ledger",
        "1111111111111111111111111111111111111111",
    )));
    payloads.push(Operation::Receive(notification(
        "signal-repository-ledger",
        "2222222222222222222222222222222222222222",
    )));

    let reply = store.handle_ordinary_request(Request { payloads });
    match reply {
        FrameReply::Accepted {
            outcome: AcceptedOutcome::BatchAborted { commit, retry, .. },
            per_operation,
        } => {
            assert_eq!(per_operation.len(), 2);
            assert_eq!(commit, CommitStatus::NotCommitted);
            assert_eq!(retry, RetryClassification::NotRetryable);
        }
        other => panic!("expected Nexus runner batch abort, got {other:?}"),
    }

    let listing = store.repository_events(all_events()).expect("events list");
    assert_eq!(listing.events.len(), 0);
}

#[test]
fn store_answers_ordinary_catalog_query() {
    let mut store = open_store();
    store
        .register_repository(Registration {
            repository_name: Name::new("repository-ledger"),
            repository_class: Class::RuntimeComponent,
        })
        .expect("register");

    let request = Request::of(Operation::Query(Query::Catalog(Catalog)));
    match store.handle_ordinary_request(request) {
        FrameReply::Accepted { per_operation, .. } => match per_operation.into_head() {
            SubReply::Completed(Reply::QueryResult(QueryResult::Catalog(listing))) => {
                assert_eq!(listing.repositories.len(), 1)
            }
            other => panic!("unexpected reply {other:?}"),
        },
        other => panic!("unexpected reply {other:?}"),
    }
}

#[test]
fn store_answers_meta_repository_registration() {
    let mut store = open_store();

    let request = Request::of(meta_contract::Operation::Register(Registration {
        repository_name: Name::new("meta-signal-repository-ledger"),
        repository_class: Class::MetaSignalContract,
    }));
    match store.handle_meta_request(request) {
        FrameReply::Accepted { per_operation, .. } => match per_operation.into_head() {
            SubReply::Completed(meta_contract::Reply::Registered(registered)) => {
                assert_eq!(
                    registered.repository_name.as_str(),
                    "meta-signal-repository-ledger"
                )
            }
            other => panic!("unexpected reply {other:?}"),
        },
        other => panic!("unexpected reply {other:?}"),
    }
}

#[test]
fn compaction_keeps_one_event_and_leaves_small_histories_alone() {
    let mut store = open_store();
    assert_eq!(
        store
            .compact_history(LedgerHistoryRetention::new(0))
            .expect("empty history compacts"),
        0
    );
    for identifier in ["1", "2", "3", "4"] {
        store
            .record_hook_notification(notification("repository-ledger", identifier))
            .expect("hook event records");
    }
    assert_eq!(
        store
            .compact_history(LedgerHistoryRetention::new(4))
            .expect("nothing to remove"),
        0
    );
    assert_eq!(
        store
            .compact_history(LedgerHistoryRetention::new(3))
            .expect("one to remove"),
        1
    );
    assert_eq!(sequences(&store), vec![2, 3, 4]);
    assert_eq!(
        store
            .compact_history(LedgerHistoryRetention::new(0))
            .expect("all but one removed"),
        2
    );
    assert_eq!(sequences(&store), vec![4]);
}

#[test]
fn retirement_removes_one_repository_and_a_second_one_is_refused() {
    let mut store = open_store();
    for name in ["b", "a", "c"] {
        store
            .register_repository(Registration {
                repository_name: Name::new(name),
                repository_class: Class::RuntimeComponent,
            })
            .expect("register");
    }
    let retired = store
        .retire_repository(Retirement {
            repository_name: Name::new("b"),
        })
        .expect("retire");
    assert_eq!(retired.repository_name.as_str(), "b");
    let names: Vec<String> = store
        .repository_catalog()
        .expect("catalog")
        .repositories
        .iter()
        .map(|registration| registration.repository_name.as_str().to_owned())
        .collect();
    assert_eq!(names, vec!["a", "c"]);

    match store.retire_repository(Retirement {
        repository_name: Name::new("b"),
    }) {
        Err(Error::Engine(EngineError::RecordNotFound { key })) => assert_eq!(key.as_str(), "b"),
        other => panic!("unexpected result {other:?}"),
    }
}

#[test]
fn registering_again_changes_the_entry() {
    let mut store = open_store();
    for class in [Class::RuntimeComponent, Class::MetaSignalContract] {
        store
            .register_repository(Registration {
                repository_name: Name::new("repository-ledger"),
                repository_class: class,
            })
            .expect("register");
    }
    let catalog = store.repository_catalog().expect("catalog");
    assert_eq!(catalog.repositories.len(), 1);
    assert_eq!(
        catalog.repositories[0].repository_class,
        Class::MetaSignalContract
    );
}

#[test]
fn a_push_with_a_repeated_commit_stops_at_the_repetition() {
    let mut store = open_store();
    let observation = PushObservation {
        notification: notification("repository-ledger", "1"),
        commits: vec![
            commit("aa", "refs/heads/main", "first"),
            commit("bb", "refs/heads/main", "second"),
            commit("aa", "refs/heads/main", "first again"),
            commit("cc", "refs/heads/main", "third"),
        ],
    };
    match store.record_push_observation(observation) {
        Err(Error::Engine(EngineError::RecordExists { key })) => {
            assert_eq!(key.as_str(), "00000000000000000001-aa-refs/heads/main")
        }
        other => panic!("unexpected result {other:?}"),
    }
    assert_eq!(sequences(&store), vec![1]);
    let messages: Vec<String> = store
        .commit_messages(CommitMessages {
            repository_name: None,
            since_received_at: None,
            until_received_at: None,
            message_contains: None,
            limit: QueryLimit::new(10),
        })
        .expect("commit messages")
        .commits
        .iter()
        .map(|commit| commit.message.as_str().to_owned())
        .collect();
    assert_eq!(messages, vec!["first", "second"]);
}

#[test]
fn the_same_commit_may_be_pushed_twice() {
    let mut store = open_store();
    for _ in 0..2 {
        store
            .record_push_observation(push_observation(
                "repository-ledger",
                "20260519T120000Z",
                "aa",
                "message",
                Vec::new(),
            ))
            .expect("observation records");
    }
    assert_eq!(sequences(&store), vec![1, 2]);
}

#[test]
fn hyphens_in_names_can_make_two_commits_share_a_key() {
    let mut store = open_store();
    let observation = PushObservation {
        notification: notification("repository-ledger", "1"),
        commits: vec![commit("a-b", "c", "one"), commit("a", "b-c", "two")],
    };
    assert!(matches!(
        store.record_push_observation(observation),
        Err(Error::Engine(EngineError::RecordExists { .. }))
    ));
}

#[test]
fn policies_are_set_and_changed() {
    let mut store = open_store();
    let set = store
        .set_spool_directory_policy(SpoolDirectoryPolicy {
            path: repository_ledger::contract::FilesystemPath::new("/var/spool/one"),
        })
        .expect("spool policy");
    assert_eq!(set.path.as_str(), "/var/spool/one");
    store
        .set_spool_directory_policy(SpoolDirectoryPolicy {
            path: repository_ledger::contract::FilesystemPath::new("/var/spool/two"),
        })
        .expect("spool policy");
    let mirror = store
        .set_mirror_policy(MirrorPolicy {
            repository_name: Name::new("repository-ledger"),
            target: MirrorTarget::new("example.org:mirror"),
        })
        .expect("mirror policy");
    assert_eq!(mirror.repository_name.as_str(), "repository-ledger");
    assert_eq!(mirror.target.as_str(), "example.org:mirror");
    store
        .set_mirror_policy(MirrorPolicy {
            repository_name: Name::new("repository-ledger"),
            target: MirrorTarget::new("example.org:other"),
        })
        .expect("mirror policy");

    let writes = store.take_writes();
    assert_eq!(writes.len(), 4);
    assert!(matches!(
        &writes[0],
        StoreWrite::AssertSpoolDirectoryPolicy(record) if record.policy.path.as_str() == "/var/spool/one"
    ));
    assert!(matches!(
        &writes[1],
        StoreWrite::MutateSpoolDirectoryPolicy(record) if record.policy.path.as_str() == "/var/spool/two"
    ));
    assert!(matches!(
        &writes[2],
        StoreWrite::AssertMirrorPolicy(record) if record.policy.target.as_str() == "example.org:mirror"
    ));
    assert!(matches!(
        &writes[3],
        StoreWrite::MutateMirrorPolicy(record) if record.policy.target.as_str() == "example.org:other"
    ));
}

#[test]
fn writes_are_handed_over_once_and_in_order() {
    let mut store = open_store();
    store
        .record_push_observation(push_observation(
            "repository-ledger",
            "20260519T120000Z",
            "aa",
            "message",
            Vec::new(),
        ))
        .expect("observation records");
    store
        .register_repository(Registration {
            repository_name: Name::new("repository-ledger"),
            repository_class: Class::RuntimeComponent,
        })
        .expect("register");
    store
        .register_repository(Registration {
            repository_name: Name::new("repository-ledger"),
            repository_class: Class::RuntimeComponent,
        })
        .expect("register again");
    store
        .retire_repository(Retirement {
            repository_name: Name::new("repository-ledger"),
        })
        .expect("retire");
    store
        .record_hook_notification(notification("repository-ledger", "2"))
        .expect("hook event records");
    store
        .compact_history(LedgerHistoryRetention::new(1))
        .expect("history compacts");

    let writes = store.take_writes();
    assert_eq!(writes.len(), 7);
    assert!(matches!(&writes[0], StoreWrite::AssertEvent(record) if record.sequence.into_u64() == 1));
    assert!(matches!(
        &writes[1],
        StoreWrite::AssertCommit(record) if record.commit.object_identifier.as_str() == "aa"
    ));
    assert!(matches!(&writes[2], StoreWrite::AssertRegistration(_)));
    assert!(matches!(&writes[3], StoreWrite::MutateRegistration(_)));
    assert!(matches!(
        &writes[4],
        StoreWrite::RetractRegistration(name) if name.as_str() == "repository-ledger"
    ));
    assert!(matches!(&writes[5], StoreWrite::AssertEvent(record) if record.sequence.into_u64() == 2));
    assert!(matches!(&writes[6], StoreWrite::RetractEvent(sequence) if sequence.into_u64() == 1));
    assert!(store.take_writes().is_empty());
}

#[test]
fn a_store_opens_on_what_it_wrote() {
    let mut store = open_store();
    store
        .record_hook_notification(notification("repository-ledger", "1"))
        .expect("hook event records");
    store
        .record_hook_notification(notification("repository-ledger", "2"))
        .expect("hook event records");
    store
        .register_repository(Registration {
            repository_name: Name::new("repository-ledger"),
            repository_class: Class::RuntimeComponent,
        })
        .expect("register");

    let mut snapshot = StoreSnapshot::empty();
    for write in store.take_writes() {
        match write {
            StoreWrite::AssertEvent(record) => snapshot.events.insert(0, record),
            StoreWrite::AssertRegistration(record) => snapshot.registrations.push(record),
            other => panic!("unexpected write {other:?}"),
        }
    }
    let reopened = Store::open(snapshot).expect("store opens");
    assert_eq!(reopened, store);
    assert_eq!(sequences(&reopened), vec![1, 2]);
}

#[test]
fn a_snapshot_with_a_key_twice_is_refused() {
    let event = StoredEvent {
        sequence: repository_ledger::contract::EventSequence::new(7),
        notification: notification("repository-ledger", "1"),
    };
    let mut snapshot = StoreSnapshot::empty();
    snapshot.events.push(event.duplicate());
    snapshot.events.push(event);
    match Store::open(snapshot) {
        Err(Error::Engine(EngineError::RecordExists { key })) => {
            assert_eq!(key.as_str(), "00000000000000000007")
        }
        other => panic!("unexpected result {other:?}"),
    }
}

#[test]
fn the_last_sequence_number_leaves_no_room() {
    let mut snapshot = StoreSnapshot::empty();
    snapshot.events.push(StoredEvent {
        sequence: repository_ledger::contract::EventSequence::new(u64::MAX),
        notification: notification("repository-ledger", "1"),
    });
    let store = Store::open(snapshot).expect("store opens");
    assert!(!store.has_sequence_left());
    assert!(open_store().has_sequence_left());
}

#[test]
fn recording_adds_one_event_at_the_end() {
    let every = || Events {
        limit: QueryLimit::new(u64::MAX),
        ..all_events()
    };
    let mut store = open_store();
    for repository_name in ["first", "second", "third"] {
        let before = store.repository_events(every()).expect("events list").events;
        let recorded = store
            .record_hook_notification(notification(repository_name, "1"))
            .expect("notification records");
        let after = store.repository_events(every()).expect("events list").events;
        assert_eq!(after.len(), before.len() + 1);
        assert_eq!(after[..before.len()], before[..]);
        let last = &after[before.len()];
        assert_eq!(last.sequence, recorded.sequence);
        assert_eq!(last.sequence.into_u64(), before.len() as u64 + 1);
        assert_eq!(last.notification.repository_name.as_str(), repository_name);
    }
}

#[test]
fn padded_numbers_have_any_width() {
    assert_eq!(padded_text(42, 0), "");
    assert_eq!(padded_text(42, 1), "2");
    assert_eq!(padded_text(42, 2), "42");
    assert_eq!(padded_text(42, 5), "00042");
    assert_eq!(padded_text(u64::MAX, 20), "18446744073709551615");
    let wide = padded_text(1234567890, 1_000_000);
    assert_eq!(wide.len(), 1_000_000);
    assert!(wide.ends_with("01234567890"));
    assert_eq!(wide.trim_start_matches('0'), "1234567890");
}

#[test]
fn record_keys_are_padded_and_joined() {
    let event = StoredEvent {
        sequence: repository_ledger::contract::EventSequence::new(18446744073709551615),
        notification: notification("repository-ledger", "1"),
    };
    assert_eq!(event.record_key().as_str(), "18446744073709551615");
    let registration = StoredRegistration {
        registration: Registration {
            repository_name: Name::new("repository-ledger"),
            repository_class: Class::RuntimeComponent,
        },
    };
    assert_eq!(registration.record_key().as_str(), "repository-ledger");
}

#[test]
fn a_refused_operation_is_answered_with_an_aborted_batch() {
    let mut store = open_store();
    let reply = store.handle_meta_request(Request::of(meta_contract::Operation::Retire(
        Retirement {
            repository_name: Name::new("unknown"),
        },
    )));
    match reply {
        FrameReply::Accepted {
            outcome,
            per_operation,
        } => {
            assert_eq!(
                outcome,
                AcceptedOutcome::BatchAborted {
                    reason: BatchFailureReason::EngineRejected,
                    retry: RetryClassification::Unknown,
                    commit: CommitStatus::Unknown,
                }
            );
            assert_eq!(per_operation, NonEmpty::single(SubReply::Invalidated));
        }
        other => panic!("unexpected reply {other:?}"),
    }
    assert!(store.take_writes().is_empty());
}

#[test]
fn meta_batches_of_several_operations_are_aborted() {
    let mut store = open_store();
    let mut payloads = NonEmpty::single(meta_contract::Operation::Retire(Retirement {
        repository_name: Name::new("a"),
    }));
    payloads.push(meta_contract::Operation::Register(Registration {
        repository_name: Name::new("a"),
        repository_class: Class::RuntimeComponent,
    }));
    payloads.push(meta_contract::Operation::Register(Registration {
        repository_name: Name::new("b"),
        repository_class: Class::RuntimeComponent,
    }));
    match store.handle_meta_request(Request { payloads }) {
        FrameReply::Accepted {
            outcome: AcceptedOutcome::BatchAborted { reason, .. },
            per_operation,
        } => {
            assert_eq!(reason, BatchFailureReason::EngineRejected);
            assert_eq!(per_operation.len(), 3);
        }
        other => panic!("unexpected reply {other:?}"),
    }
    assert_eq!(
        store
            .repository_catalog()
            .expect("catalog")
            .repositories
            .len(),
        0
    );
}

#[test]
fn every_meta_operation_gets_its_receipt() {
    let mut store = open_store();
    let operations = vec![
        meta_contract::Operation::Register(Registration {
            repository_name: Name::new("a"),
            repository_class: Class::RuntimeComponent,
        }),
        meta_contract::Operation::SetSpoolDirectory(SpoolDirectoryPolicy {
            path: repository_ledger::contract::FilesystemPath::new("/spool"),
        }),
        meta_contract::Operation::SetMirror(MirrorPolicy {
            repository_name: Name::new("a"),
            target: MirrorTarget::new("target"),
        }),
        meta_contract::Operation::Retire(Retirement {
            repository_name: Name::new("a"),
        }),
    ];
    let mut receipts = Vec::new();
    for operation in operations {
        match store.handle_meta_request(Request::of(operation)) {
            FrameReply::Accepted {
                outcome: AcceptedOutcome::Committed,
                per_operation,
            } => match per_operation.into_head() {
                SubReply::Completed(reply) => receipts.push(reply),
                other => panic!("unexpected reply {other:?}"),
            },
            other => panic!("unexpected reply {other:?}"),
        }
    }
    assert!(matches!(&receipts[0], meta_contract::Reply::Registered(r) if r.repository_name.as_str() == "a"));
    assert!(matches!(
        &receipts[1],
        meta_contract::Reply::SpoolDirectoryPolicySet(r) if r.path.as_str() == "/spool"
    ));
    assert!(matches!(
        &receipts[2],
        meta_contract::Reply::MirrorPolicySet(r) if r.target.as_str() == "target"
    ));
    assert!(matches!(&receipts[3], meta_contract::Reply::Retired(r) if r.repository_name.as_str() == "a"));
}

#[test]
fn a_received_notification_is_answered_with_its_sequence_number() {
    let mut store = open_store();
    for expected in 1..4u64 {
        let request = Request::of(Operation::Receive(notification("repository-ledger", "1")));
        match store.handle_ordinary_request(request) {
            FrameReply::Accepted {
                outcome: AcceptedOutcome::Committed,
                per_operation,
            } => match per_operation.into_head() {
                SubReply::Completed(Reply::EventRecorded(recorded)) => {
                    assert_eq!(recorded.sequence.into_u64(), expected)
                }
                other => panic!("unexpected reply {other:?}"),
            },
            other => panic!("unexpected reply {other:?}"),
        }
    }
}

#[test]
fn the_two_contracts_change_different_tables() {
    let mut store = open_store();
    store.handle_ordinary_request(Request::of(Operation::Receive(notification(
        "repository-ledger",
        "1",
    ))));
    store.handle_ordinary_request(Request::of(Operation::Observe(push_observation(
        "repository-ledger",
        "20260519T120000Z",
        "aa",
        "message",
        Vec::new(),
    ))));
    assert!(store
        .repository_catalog()
        .expect("catalog")
        .repositories
        .is_empty());
    assert!(store
        .take_writes()
        .iter()
        .all(|write| matches!(write, StoreWrite::AssertEvent(_) | StoreWrite::AssertCommit(_))));

    store.handle_meta_request(Request::of(meta_contract::Operation::Register(
        Registration {
            repository_name: Name::new("repository-ledger"),
            repository_class: Class::RuntimeComponent,
        },
    )));
    assert_eq!(sequences(&store), vec![1, 2]);
    assert!(store
        .take_writes()
        .iter()
        .all(|write| matches!(write, StoreWrite::AssertRegistration(_))));
}

#[test]
fn queries_leave_nothing_to_write() {
    let mut store = open_store();
    store
        .record_hook_notification(notification("repository-ledger", "1"))
        .expect("hook event records");
    store.take_writes();
    let reply = store.handle_ordinary_request(Request::of(Operation::Query(Query::Events(
        all_events(),
    ))));
    assert!(matches!(
        reply,
        FrameReply::Accepted {
            outcome: AcceptedOutcome::Committed,
            ..
        }
    ));
    assert!(store.take_writes().is_empty());
    assert_eq!(sequences(&store), vec![1]);
}

#[test]
fn a_commit_is_found_as_soon_as_its_push_is_recorded() {
    let mut store = open_store();
    store
        .record_push_observation(PushObservation {
            notification: notification("repository-ledger", "1"),
            commits: vec![commit("aa", "main", "first"), commit("bb", "main", "second")],
        })
        .expect("observation records");
    let found = store
        .commit_messages(CommitMessages {
            repository_name: None,
            since_received_at: None,
            until_received_at: None,
            message_contains: None,
            limit: QueryLimit::new(2),
        })
        .expect("commit messages");
    assert_eq!(found.commits.len(), 2);
    assert_eq!(found.commits[1].object_identifier.as_str(), "bb");
    assert_eq!(found.commits[1].commit_timestamp.as_str(), "20260519T115900Z");
    assert_eq!(found.commits[1].received_at.as_str(), "20260519T120000Z");
}

#[test]
fn a_client_gets_what_the_store_answered() {
    let mut store = open_store();
    let reply = store.handle_ordinary_request(Request::of(Operation::Receive(notification(
        "repository-ledger",
        "1",
    ))));
    match Client::unwrap_single_reply(reply) {
        Ok(Reply::EventRecorded(recorded)) => assert_eq!(recorded.sequence.into_u64(), 1),
        other => panic!("unexpected result {other:?}"),
    }
    let reply = store.handle_meta_request(Request::of(meta_contract::Operation::Retire(
        Retirement {
            repository_name: Name::new("unknown"),
        },
    )));
    assert_eq!(
        Client::unwrap_single_reply(reply),
        Err(Error::SignalRequestFailed)
    );
}
