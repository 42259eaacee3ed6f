use repository_ledger::contract;
use repository_ledger::contract::{
    Catalog, EventRecorded, EventSequence, GitoliteUser, Name, Query, QueryKind,
    ReceiveHookNotification, Timestamp, UnimplementedReason,
};
use repository_ledger::error::EngineError;
use repository_ledger::frame::{
    BatchFailureReason, CommitStatus, FrameReply, NonEmpty, RetryClassification, SubReply,
};
use repository_ledger::meta_contract;
use repository_ledger::meta_contract::Retirement;
use repository_ledger::nexus::{
    LedgerSemaReadInput, LedgerSemaReadOutput, LedgerSemaWriteInput, LedgerSemaWriteOutput,
    NextStep, RepositoryLedgerNexusEngines, RepositoryLedgerNexusWork, RepositoryLedgerSignalInput,
    RepositoryLedgerSignalOutput, RepositoryLedgerSignalTier,
};
use repository_ledger::notation::NotaDecodeError;
use repository_ledger::service::{batch_aborted_reply, settled_reply};
use repository_ledger::{Error, Store, StoreSnapshot};

fn retire(name: &str) -> RepositoryLedgerSignalInput {
    RepositoryLedgerSignalInput::Meta(meta_contract::Operation::Retire(Retirement {
        repository_name: Name::new(name),
    }))
}

fn receive() -> contract::Operation {
    contract::Operation::Receive(ReceiveHookNotification {
        repository_name: Name::new("a"),
        gitolite_user: GitoliteUser::new("u"),
        received_at: Timestamp::new("t"),
        daemon_socket_present: false,
        ref_updates: Vec::new(),
    })
}

#[test]
fn a_query_becomes_a_read() {
    let mut engines = RepositoryLedgerNexusEngines::new();
    let step = engines.decide_next_step(RepositoryLedgerNexusWork::SignalArrived(
        RepositoryLedgerSignalInput::Ordinary(contract::Operation::Query(Query::Catalog(Catalog))),
    ));
    assert_eq!(
        step,
        NextStep::SemaRead(LedgerSemaReadInput::ReadQuery(Query::Catalog(Catalog)))
    );
    assert_eq!(engines.signal_tier, Some(RepositoryLedgerSignalTier::Ordinary));
}

#[test]
fn a_retirement_becomes_a_write() {
    let mut engines = RepositoryLedgerNexusEngines::new();
    let step = engines.decide_next_step(RepositoryLedgerNexusWork::SignalArrived(retire("a")));
    assert_eq!(
        step,
        NextStep::SemaWrite(LedgerSemaWriteInput::RetireRepository(Retirement {
            repository_name: Name::new("a"),
        }))
    );
    assert_eq!(engines.signal_tier, Some(RepositoryLedgerSignalTier::Meta));
}

#[test]
fn a_completed_write_is_replied_to() {
    let mut engines = RepositoryLedgerNexusEngines::new();
    let recorded = EventRecorded {
        sequence: EventSequence::new(4),
    };
    let step = engines.decide_next_step(RepositoryLedgerNexusWork::SemaWriteCompleted(
        LedgerSemaWriteOutput::EventRecorded(recorded),
    ));
    assert_eq!(
        step,
        NextStep::Reply(RepositoryLedgerSignalOutput::Ordinary(
            contract::Reply::EventRecorded(recorded)
        ))
    );
}

#[test]
fn a_failed_step_names_the_operation() {
    let mut engines = RepositoryLedgerNexusEngines::new();
    engines.decide_next_step(RepositoryLedgerNexusWork::SignalArrived(
        RepositoryLedgerSignalInput::Ordinary(contract::Operation::Query(Query::Catalog(Catalog))),
    ));
    assert_eq!(
        engines.decide_next_step(RepositoryLedgerNexusWork::SemaReadCompleted(
            LedgerSemaReadOutput::ReadMiss
        )),
        NextStep::Reply(RepositoryLedgerSignalOutput::Ordinary(
            contract::Reply::RequestUnimplemented(contract::RequestUnimplemented {
                operation: contract::OperationKind::Query,
                query: Some(QueryKind::Catalog),
                reason: UnimplementedReason::StoreUnavailable,
            })
        ))
    );

    let mut engines = RepositoryLedgerNexusEngines::new();
    engines.decide_next_step(RepositoryLedgerNexusWork::SignalArrived(retire("a")));
    assert_eq!(
        engines.decide_next_step(RepositoryLedgerNexusWork::SemaWriteCompleted(
            LedgerSemaWriteOutput::WriteRejected
        )),
        NextStep::Reply(RepositoryLedgerSignalOutput::Meta(
            meta_contract::Reply::RequestUnimplemented(meta_contract::RequestUnimplemented {
                operation: meta_contract::OperationKind::Retire,
                reason: UnimplementedReason::StoreUnavailable,
            })
        ))
    );
}

#[test]
fn a_failure_without_a_request_is_answered_all_the_same() {
    let engines = RepositoryLedgerNexusEngines::new();
    assert_eq!(
        engines.failure_signal_output(),
        RepositoryLedgerSignalOutput::Ordinary(contract::Reply::RequestUnimplemented(
            contract::RequestUnimplemented {
                operation: contract::OperationKind::Receive,
                query: None,
                reason: UnimplementedReason::StoreUnavailable,
            }
        ))
    );
    let engines = RepositoryLedgerNexusEngines {
        signal_tier: Some(RepositoryLedgerSignalTier::Meta),
        ..RepositoryLedgerNexusEngines::new()
    };
    assert_eq!(
        engines.failure_signal_output(),
        RepositoryLedgerSignalOutput::Meta(meta_contract::Reply::RequestUnimplemented(
            meta_contract::RequestUnimplemented {
                operation: meta_contract::OperationKind::Register,
                reason: UnimplementedReason::StoreUnavailable,
            }
        ))
    );
}

#[test]
fn driving_a_refused_write_keeps_its_error() {
    let mut store = Store::open(StoreSnapshot::empty()).expect("store opens");
    let mut engines = RepositoryLedgerNexusEngines::new();
    let output = engines.drive(
        &mut store,
        RepositoryLedgerNexusWork::SignalArrived(retire("a")),
    );
    assert!(matches!(
        output,
        RepositoryLedgerSignalOutput::Meta(meta_contract::Reply::RequestUnimplemented(_))
    ));
    assert!(matches!(
        engines.take_last_error(),
        Some(Error::Engine(EngineError::RecordNotFound { .. }))
    ));
    assert!(engines.take_last_error().is_none());
}

#[test]
fn driving_a_notification_records_it() {
    let mut store = Store::open(StoreSnapshot::empty()).expect("store opens");
    let mut engines = RepositoryLedgerNexusEngines::new();
    let output = engines.drive(
        &mut store,
        RepositoryLedgerNexusWork::SignalArrived(RepositoryLedgerSignalInput::Ordinary(receive())),
    );
    assert_eq!(
        output,
        RepositoryLedgerSignalOutput::Ordinary(contract::Reply::EventRecorded(EventRecorded {
            sequence: EventSequence::new(1),
        }))
    );
    assert!(engines.take_last_error().is_none());
}

#[test]
fn errors_are_classified_for_the_peer() {
    let detail = || "detail".to_owned();
    let runtime = vec![
        Error::Io { detail: detail() },
        Error::RuntimeFrame { detail: detail() },
        Error::ActorCall { detail: detail() },
        Error::DaemonRuntime { detail: detail() },
    ];
    for error in runtime {
        assert_eq!(error.batch_failure_reason(), BatchFailureReason::EngineUnavailable);
        assert_eq!(error.retry_classification(), RetryClassification::Unknown);
        assert_eq!(error.commit_status(), CommitStatus::Unknown);
    }
    let engine = Error::Engine(EngineError::Failed { detail: detail() });
    assert_eq!(engine.batch_failure_reason(), BatchFailureReason::EngineRejected);
    assert_eq!(engine.retry_classification(), RetryClassification::Unknown);
    assert_eq!(engine.commit_status(), CommitStatus::Unknown);
    let others = vec![
        Error::Frame { detail: detail() },
        Error::command_line_route(detail()),
        Error::Nota(NotaDecodeError::Syntax { detail: detail() }),
        Error::UnexpectedFrame,
        Error::UnsupportedAtomicBatch { operation_count: 2 },
        Error::NexusReplyTierMismatch,
    ];
    for error in others {
        assert_eq!(error.batch_failure_reason(), BatchFailureReason::EngineRejected);
        assert_eq!(error.retry_classification(), RetryClassification::NotRetryable);
        assert_eq!(error.commit_status(), CommitStatus::NotCommitted);
    }
}

#[test]
fn an_aborted_batch_invalidates_every_operation() {
    for (count, expected) in [(0usize, 1usize), (1, 1), (2, 2), (5, 5)] {
        let reply = batch_aborted_reply::<u8>(
            &Error::UnsupportedAtomicBatch {
                operation_count: count,
            },
            count,
        );
        match reply {
            repository_ledger::frame::FrameReply::Accepted { per_operation, .. } => {
                assert_eq!(per_operation.len(), expected)
            }
            other => panic!("unexpected reply {other:?}"),
        }
    }
}

#[test]
fn a_reply_is_given_once_its_writes_are_made() {
    let committed = || FrameReply::committed(NonEmpty::single(SubReply::Completed(7u8)));
    assert_eq!(settled_reply(committed(), Ok(()), 1), committed());

    let failure = || Error::Io {
        detail: "disk full".to_owned(),
    };
    assert_eq!(
        settled_reply(committed(), Err(failure()), 3),
        batch_aborted_reply(&failure(), 3)
    );
    match settled_reply(committed(), Err(failure()), 0) {
        FrameReply::Accepted { per_operation, .. } => assert_eq!(per_operation.len(), 1),
        other => panic!("unexpected reply {other:?}"),
    }
}

#[test]
fn driving_a_request_leaves_the_rest_of_what_is_remembered() {
    let mut store = Store::open(StoreSnapshot::empty()).expect("store opens");
    let mut engines = RepositoryLedgerNexusEngines::new();
    engines.drive(
        &mut store,
        RepositoryLedgerNexusWork::SignalArrived(RepositoryLedgerSignalInput::Ordinary(receive())),
    );
    assert_eq!(engines.signal_tier, Some(RepositoryLedgerSignalTier::Ordinary));
    assert!(engines.ordinary_failure_reply.is_some());
    assert_eq!(engines.meta_failure_reply, None);
    assert_eq!(engines.last_error, None);

    engines.drive(&mut store, RepositoryLedgerNexusWork::SignalArrived(retire("a")));
    assert_eq!(engines.signal_tier, Some(RepositoryLedgerSignalTier::Meta));
    assert!(engines.ordinary_failure_reply.is_some());
    assert!(engines.meta_failure_reply.is_some());
    assert!(engines.last_error.is_some());
}
