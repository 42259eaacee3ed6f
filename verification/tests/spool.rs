use std::collections::BTreeMap;

use repository_ledger::contract::{EventSequence, Events, Name, QueryLimit};
use repository_ledger::notation::{Block, NotaDecodeError};
use repository_ledger::path::UnixPath;
use repository_ledger::spool::{
    choose_candidates, gives_notification, SpoolAction, SpoolDirectory, SpoolEntry, SpoolIngestSummary,
    SpoolNotificationFile,
};
use repository_ledger::records::StoredEvent;
use repository_ledger::{Error, Store, StoreSnapshot};

fn atom(text: &str) -> Block {
    Block {
        children: None,
        atom: Some(text.to_owned()),
        text: Ok(text.to_owned()),
        truth: match text {
            "True" => Ok(true),
            "False" => Ok(false),
            _ => Err(NotaDecodeError::Syntax {
                detail: "expected True or False".to_owned(),
            }),
        },
    }
}

fn record(children: Vec<Block>) -> Block {
    Block {
        children: Some(children),
        atom: None,
        text: Err(NotaDecodeError::Syntax {
            detail: "expected a text".to_owned(),
        }),
        truth: Err(NotaDecodeError::Syntax {
            detail: "expected True or False".to_owned(),
        }),
    }
}

fn named(head: &str, value: &str) -> Block {
    record(vec![atom(head), atom(value)])
}

fn notification_block(repository_name: &str, new_object_identifier: &str) -> Block {
    record(vec![
        atom("ReceiveHookNotification"),
        named("Name", repository_name),
        named("GitoliteUser", "gitolite-admin"),
        named("ReceivedAt", "20260519T120000Z"),
        named("DaemonSocketPresent", "False"),
        record(vec![
            atom("RefUpdates"),
            record(vec![
                atom("RefUpdate"),
                atom("0000000000000000000000000000000000000000"),
                atom(new_object_identifier),
                atom("refs/heads/main"),
            ]),
        ]),
    ])
}

fn open_store() -> Store {
    Store::open(StoreSnapshot::empty()).expect("store opens")
}

fn name(text: &str) -> UnixPath {
    UnixPath::from_text(text)
}

fn entry(text: &str) -> SpoolEntry {
    SpoolEntry {
        name: name(text),
        is_file: true,
    }
}

/// A directory in memory: the files, what each of them parses to, those that
/// cannot be removed, and those whose writes are not made.
struct MemorySpool {
    files: BTreeMap<Vec<u8>, Option<Block>>,
    stuck: Vec<Vec<u8>>,
    unsettled: Vec<Vec<u8>>,
}

impl MemorySpool {
    fn new(files: Vec<(&str, Option<Block>)>) -> Self {
        MemorySpool {
            files: files
                .into_iter()
                .map(|(file, block)| (file.as_bytes().to_vec(), block))
                .collect(),
            stuck: Vec::new(),
            unsettled: Vec::new(),
        }
    }

    fn ingest_into(&mut self, store: &mut Store) -> repository_ledger::Result<SpoolIngestSummary> {
        let entries = self
            .files
            .keys()
            .rev()
            .map(|file| SpoolEntry {
                name: UnixPath::from_bytes(file.clone()),
                is_file: true,
            })
            .collect();
        let mut run = SpoolDirectory::new(name("/spool")).ingestion(Some(entries));
        loop {
            match run.next_action() {
                SpoolAction::Read(file) => {
                    let root = match self.files.get_mut(file.as_bytes()).expect("listed").take() {
                        Some(block) => Ok(block),
                        None => Err(Error::Io {
                            detail: "cannot read".to_owned(),
                        }),
                    };
                    assert!(!gives_notification(&root) || store.has_sequence_left());
                    run.file_read(store, root);
                }
                SpoolAction::Settle(file) => {
                    assert!(!store.is_settled());
                    if self.unsettled.iter().any(|unsettled| unsettled.as_slice() == file.as_bytes()) {
                        run.writes_settled(
                            store,
                            Err(Error::Io {
                                detail: "cannot write".to_owned(),
                            }),
                        );
                    } else {
                        store.take_writes();
                        run.writes_settled(store, Ok(()));
                    }
                }
                SpoolAction::Reclaim(file) => {
                    assert!(store.is_settled());
                    if self.stuck.iter().any(|stuck| stuck.as_slice() == file.as_bytes()) {
                        run.file_reclaimed(Err(Error::Io {
                            detail: "cannot remove".to_owned(),
                        }));
                    } else {
                        self.files.remove(file.as_bytes());
                        run.file_reclaimed(Ok(()));
                    }
                }
                SpoolAction::Stop => return run.finish(),
            }
        }
    }
}

fn events_of(store: &Store, repository_name: &str) -> usize {
    store
        .repository_events(Events {
            repository_name: Some(Name::new(repository_name)),
            since_sequence: None,
            limit: QueryLimit::new(10),
        })
        .expect("events")
        .events
        .len()
}

#[test]
fn committed_spool_files_are_reclaimed_immediately() {
    let mut store = open_store();
    let mut spool = MemorySpool::new(vec![(
        "20260519T120000Z-repository-ledger-1.nota",
        Some(notification_block(
            "repository-ledger",
            "1111111111111111111111111111111111111111",
        )),
    )]);

    let summary = spool.ingest_into(&mut store).expect("ingest");
    assert_eq!(summary.files_seen, 1);
    assert_eq!(summary.files_recorded, 1);
    assert!(
        spool.files.is_empty(),
        "committed fallback projections are terminal and leave no processed history"
    );

    let listing = store
        .repository_events(Events {
            repository_name: Some(Name::new("repository-ledger")),
            since_sequence: None,
            limit: QueryLimit::new(10),
        })
        .expect("events");
    assert_eq!(listing.events.len(), 1);
    assert_eq!(
        listing.events[0].notification.ref_updates[0]
            .new_object_identifier
            .as_str(),
        "1111111111111111111111111111111111111111"
    );
}

#[test]
fn spool_files_are_taken_in_the_order_of_their_names() {
    let mut store = open_store();
    let mut spool = MemorySpool::new(vec![
        ("b.nota", Some(notification_block("second", "2"))),
        ("a.nota", Some(notification_block("first", "1"))),
        ("notes.txt", Some(notification_block("ignored", "0"))),
    ]);
    let summary = spool.ingest_into(&mut store).expect("ingest");
    assert_eq!(summary.files_recorded, 2);
    assert_eq!(spool.files.len(), 1);
    let names: Vec<String> = store
        .repository_events(Events {
            repository_name: None,
            since_sequence: None,
            limit: QueryLimit::new(10),
        })
        .expect("events")
        .events
        .iter()
        .map(|event| event.notification.repository_name.as_str().to_owned())
        .collect();
    assert_eq!(names, vec!["first", "second"]);
}

#[test]
fn the_first_bad_file_ends_the_run_and_stays() {
    let mut store = open_store();
    let mut spool = MemorySpool::new(vec![
        ("a.nota", Some(notification_block("first", "1"))),
        ("b.nota", Some(record(vec![atom("Other")]))),
        ("c.nota", Some(notification_block("third", "3"))),
    ]);
    match spool.ingest_into(&mut store) {
        Err(Error::Nota(NotaDecodeError::UnknownVariant { enum_name, variant })) => {
            assert_eq!(enum_name, "ReceiveHookNotification");
            assert_eq!(variant, "Other");
        }
        other => panic!("unexpected result {other:?}"),
    }
    assert_eq!(spool.files.len(), 2);
    assert_eq!(events_of(&store, "first"), 1);
    assert_eq!(events_of(&store, "third"), 0);
}

#[test]
fn an_unreadable_file_ends_the_run() {
    let mut store = open_store();
    let mut spool = MemorySpool::new(vec![("a.nota", None)]);
    match spool.ingest_into(&mut store) {
        Err(Error::Io { detail }) => assert_eq!(detail, "cannot read"),
        other => panic!("unexpected result {other:?}"),
    }
    assert!(store.take_writes().is_empty());
}

#[test]
fn a_file_that_cannot_be_removed_ends_the_run_after_it_was_recorded() {
    let mut store = open_store();
    let mut spool = MemorySpool::new(vec![
        ("a.nota", Some(notification_block("first", "1"))),
        ("b.nota", Some(notification_block("second", "2"))),
    ]);
    spool.stuck.push(b"a.nota".to_vec());
    match spool.ingest_into(&mut store) {
        Err(Error::Io { detail }) => assert_eq!(detail, "cannot remove"),
        other => panic!("unexpected result {other:?}"),
    }
    assert_eq!(events_of(&store, "first"), 1);
    assert_eq!(events_of(&store, "second"), 0);
}

#[test]
fn a_file_whose_writes_are_not_made_ends_the_run_and_stays() {
    let mut store = open_store();
    let mut spool = MemorySpool::new(vec![
        ("a.nota", Some(notification_block("first", "1"))),
        ("b.nota", Some(notification_block("second", "2"))),
        ("c.nota", Some(notification_block("third", "3"))),
    ]);
    spool.unsettled.push(b"b.nota".to_vec());
    match spool.ingest_into(&mut store) {
        Err(Error::Io { detail }) => assert_eq!(detail, "cannot write"),
        other => panic!("unexpected result {other:?}"),
    }
    let left: Vec<Vec<u8>> = spool.files.keys().cloned().collect();
    assert_eq!(left, vec![b"b.nota".to_vec(), b"c.nota".to_vec()]);
    assert_eq!(events_of(&store, "third"), 0);
    assert!(!store.is_settled());
}

#[test]
fn a_second_run_over_a_drained_spool_records_nothing() {
    let mut store = open_store();
    let mut spool = MemorySpool::new(vec![
        ("a.nota", Some(notification_block("first", "1"))),
        ("b.nota", Some(notification_block("second", "2"))),
        ("notes.txt", Some(notification_block("ignored", "0"))),
    ]);
    let summary = spool.ingest_into(&mut store).expect("ingest");
    assert_eq!(summary.files_recorded, 2);
    assert_eq!(
        spool.ingest_into(&mut store),
        Ok(SpoolIngestSummary::empty())
    );
    assert_eq!(events_of(&store, "first"), 1);
    assert_eq!(events_of(&store, "second"), 1);
    assert_eq!(events_of(&store, "ignored"), 0);
    assert!(store.is_settled());
}

#[test]
fn a_missing_spool_directory_is_an_empty_run() {
    let run = SpoolDirectory::new(name("/nowhere")).ingestion(None);
    assert_eq!(run.next_action(), SpoolAction::Stop);
    assert_eq!(run.finish(), Ok(SpoolIngestSummary::empty()));
}

#[test]
fn a_spool_directory_knows_its_path() {
    assert_eq!(
        SpoolDirectory::new(name("/var/spool")).path().as_bytes(),
        b"/var/spool"
    );
}

#[test]
fn only_nota_files_are_candidates() {
    let mut entries = vec![
        entry("b.nota"),
        entry(".nota"),
        entry("..nota"),
        entry("a.nota.txt"),
        entry("anota"),
        entry("A.nota"),
        entry("x.NOTA"),
    ];
    entries.push(SpoolEntry {
        name: name("directory.nota"),
        is_file: false,
    });
    entries.push(SpoolEntry {
        name: UnixPath::from_bytes(vec![0xff, b'.', b'n', b'o', b't', b'a']),
        is_file: true,
    });
    let chosen: Vec<Vec<u8>> = choose_candidates(entries)
        .iter()
        .map(|file| file.as_bytes().to_vec())
        .collect();
    assert_eq!(
        chosen,
        vec![
            b"..nota".to_vec(),
            b"A.nota".to_vec(),
            b"b.nota".to_vec(),
            vec![0xff, b'.', b'n', b'o', b't', b'a'],
        ]
    );
}

fn decode(root: Block) -> Result<(), NotaDecodeError> {
    SpoolNotificationFile::from_root(root).decode().map(|_| ())
}

#[test]
fn a_notification_file_is_decoded_field_by_field() {
    let decoded = SpoolNotificationFile::from_root(notification_block("repository-ledger", "11"))
        .decode()
        .expect("decodes");
    assert_eq!(decoded.repository_name.as_str(), "repository-ledger");
    assert_eq!(decoded.gitolite_user.as_str(), "gitolite-admin");
    assert_eq!(decoded.received_at.as_str(), "20260519T120000Z");
    assert!(!decoded.daemon_socket_present);
    assert_eq!(decoded.ref_updates.len(), 1);
    assert_eq!(decoded.ref_updates[0].ref_name.as_str(), "refs/heads/main");
}

#[test]
fn a_notification_file_must_be_a_record_of_its_name() {
    assert_eq!(
        decode(atom("text")),
        Err(NotaDecodeError::ExpectedParenthesis {
            record_name: "ReceiveHookNotification".to_owned(),
        })
    );
    assert_eq!(
        decode(record(Vec::new())),
        Err(NotaDecodeError::ExpectedAtom {
            record_name: "ReceiveHookNotification".to_owned(),
        })
    );
    assert_eq!(
        decode(record(vec![record(Vec::new())])),
        Err(NotaDecodeError::ExpectedAtom {
            record_name: "ReceiveHookNotification".to_owned(),
        })
    );
}

#[test]
fn the_number_of_fields_is_checked() {
    assert_eq!(
        decode(record(vec![
            atom("ReceiveHookNotification"),
            named("Name", "repository-ledger"),
        ])),
        Err(NotaDecodeError::ExpectedRootCount {
            record_name: "ReceiveHookNotification".to_owned(),
            expected: 5,
            found: 1,
        })
    );
    let mut root = notification_block("repository-ledger", "1");
    root.children.as_mut().expect("record")[1] =
        record(vec![atom("Name"), atom("a"), atom("b")]);
    assert_eq!(
        decode(root),
        Err(NotaDecodeError::ExpectedRootCount {
            record_name: "Name".to_owned(),
            expected: 1,
            found: 2,
        })
    );
    let mut root = notification_block("repository-ledger", "1");
    root.children.as_mut().expect("record")[5] =
        record(vec![atom("RefUpdates"), record(vec![atom("RefUpdate"), atom("a")])]);
    assert_eq!(
        decode(root),
        Err(NotaDecodeError::ExpectedRootCount {
            record_name: "RefUpdate".to_owned(),
            expected: 3,
            found: 1,
        })
    );
}

#[test]
fn the_values_of_fields_are_checked() {
    let mut root = notification_block("repository-ledger", "1");
    root.children.as_mut().expect("record")[4] = named("DaemonSocketPresent", "maybe");
    assert_eq!(
        decode(root),
        Err(NotaDecodeError::Syntax {
            detail: "expected True or False".to_owned(),
        })
    );
    let mut root = notification_block("repository-ledger", "1");
    root.children.as_mut().expect("record")[3] =
        record(vec![atom("ReceivedAt"), record(Vec::new())]);
    assert_eq!(
        decode(root),
        Err(NotaDecodeError::Syntax {
            detail: "expected a text".to_owned(),
        })
    );
    let mut root = notification_block("repository-ledger", "1");
    root.children.as_mut().expect("record")[2] = named("User", "someone");
    assert_eq!(
        decode(root),
        Err(NotaDecodeError::UnknownVariant {
            enum_name: "GitoliteUser".to_owned(),
            variant: "User".to_owned(),
        })
    );
}

#[test]
fn summaries_count_seen_and_recorded_files_together() {
    let mut summary = SpoolIngestSummary::empty();
    summary.record_file();
    summary.record_file();
    assert_eq!(
        summary,
        SpoolIngestSummary {
            files_seen: 2,
            files_recorded: 2,
        }
    );
}

#[test]
fn a_file_that_does_not_decode_is_refused_even_when_no_number_is_left() {
    let notification = SpoolNotificationFile::from_root(notification_block("first", "1"))
        .decode()
        .expect("decodes");
    let mut snapshot = StoreSnapshot::empty();
    snapshot.events.push(StoredEvent {
        sequence: EventSequence::new(u64::MAX),
        notification,
    });
    let mut store = Store::open(snapshot).expect("store opens");
    assert!(!store.has_sequence_left());
    let mut spool = MemorySpool::new(vec![("a.nota", Some(atom("text")))]);
    assert_eq!(
        spool.ingest_into(&mut store),
        Err(Error::Nota(NotaDecodeError::ExpectedParenthesis {
            record_name: "ReceiveHookNotification".to_owned(),
        }))
    );
}

#[test]
fn a_file_gives_a_notification_exactly_when_it_decodes() {
    assert!(gives_notification(&Ok(notification_block("first", "1"))));
    assert!(!gives_notification(&Ok(atom("text"))));
    assert!(!gives_notification(&Err(Error::Io {
        detail: "cannot read".to_owned(),
    })));
}
