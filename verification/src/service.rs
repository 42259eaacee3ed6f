//! The service: carries a batch of operations through the nexus and the store, and
//! replies to it as a whole.
use vstd::prelude::*;

use crate::contract;
use crate::error;
use crate::error::{Error, Result};
use crate::frame::{
    AcceptedOutcome, BatchFailureReason, CommitStatus, FrameReply, NonEmpty, Request,
    RetryClassification, SubReply,
};
use crate::ledger;
use crate::ledger::{LedgerState, StoreWriteModel};
use crate::meta_contract;
use crate::meta_contract::{
    MirrorPolicySetModel, Registered, RegisteredModel, RetiredModel, SpoolDirectoryPolicySetModel,
};
use crate::model::Duplicate;
use crate::nexus;
use crate::nexus::{
    LedgerSemaReadInput, LedgerSemaReadOutput, LedgerSemaWriteInput, LedgerSemaWriteOutput,
    NextStep, RepositoryLedgerNexusAction, RepositoryLedgerNexusEngines, RepositoryLedgerNexusWork,
    RepositoryLedgerSignalInput, RepositoryLedgerSignalOutput,
};
use crate::records::{EngineRecord, StoredCommit, StoredRegistration};
use crate::store;
use crate::store::Store;
use crate::table;

verus! {

/// Whether a write records a push, and so needs a sequence number.
pub open spec fn records_event(input: LedgerSemaWriteInput) -> bool {
    input is RecordHookNotification || input is RecordPushObservation
}

/// The ledger after a write.
pub open spec fn write_state(state: LedgerState, input: LedgerSemaWriteInput) -> LedgerState {
    match input {
        LedgerSemaWriteInput::RecordHookNotification(notification) => {
            ledger::notified(state, notification@)
        },
        LedgerSemaWriteInput::RecordPushObservation(observation) => {
            ledger::observed(state, observation@)
        },
        LedgerSemaWriteInput::RegisterRepository(registration) => {
            ledger::registered(state, registration@)
        },
        LedgerSemaWriteInput::RetireRepository(request) => {
            ledger::retired(state, request@.repository_name)
        },
        LedgerSemaWriteInput::SetSpoolDirectoryPolicy(policy) => {
            ledger::spool_policy_set(state, policy@)
        },
        LedgerSemaWriteInput::SetMirrorPolicy(policy) => ledger::mirror_policy_set(state, policy@),
    }
}

/// The record writes that a write leaves for the record engine.
pub open spec fn write_log(
    state: LedgerState,
    input: LedgerSemaWriteInput,
) -> Seq<StoreWriteModel> {
    match input {
        LedgerSemaWriteInput::RecordHookNotification(notification) => {
            ledger::notification_writes(state, notification@)
        },
        LedgerSemaWriteInput::RecordPushObservation(observation) => {
            ledger::observation_writes(state, observation@)
        },
        LedgerSemaWriteInput::RegisterRepository(registration) => {
            ledger::registration_writes(state, registration@)
        },
        LedgerSemaWriteInput::RetireRepository(request) => {
            ledger::retirement_writes(state, request@.repository_name)
        },
        LedgerSemaWriteInput::SetSpoolDirectoryPolicy(policy) => {
            ledger::spool_policy_writes(state, policy@)
        },
        LedgerSemaWriteInput::SetMirrorPolicy(policy) => {
            ledger::mirror_policy_writes(state, policy@)
        },
    }
}

/// Whether the store refuses a write, and with which error: a push one of whose
/// commits has a key that is taken, and the retirement of a repository that is
/// not in the catalog.
pub open spec fn write_refused(
    state: LedgerState,
    input: LedgerSemaWriteInput,
    error: Error,
) -> bool {
    match input {
        LedgerSemaWriteInput::RecordPushObservation(observation) => {
            let commits = ledger::observed_commits(
                observation@,
                ledger::next_sequence(state.events),
            );
            let count = ledger::admitted_commits(state, observation@);
            &&& count < commits.len()
            &&& store::says_exists(error, StoredCommit::key_of(commits[count as int]))
        },
        LedgerSemaWriteInput::RetireRepository(request) => {
            &&& !table::holds::<StoredRegistration>(state.registrations, request@.repository_name)
            &&& store::says_missing(error, request@.repository_name)
        },
        _ => false,
    }
}

/// Whether the store carries a write out.
pub open spec fn write_accepted(state: LedgerState, input: LedgerSemaWriteInput) -> bool {
    match input {
        LedgerSemaWriteInput::RecordPushObservation(observation) => ledger::admitted_commits(
            state,
            observation@,
        ) == observation@.commits.len(),
        LedgerSemaWriteInput::RetireRepository(request) => table::holds::<StoredRegistration>(
            state.registrations,
            request@.repository_name,
        ),
        _ => true,
    }
}

/// Whether `output` is the receipt of a write that was carried out.
pub open spec fn write_receipt(
    state: LedgerState,
    input: LedgerSemaWriteInput,
    output: LedgerSemaWriteOutput,
) -> bool {
    match input {
        LedgerSemaWriteInput::RecordHookNotification(_)
        | LedgerSemaWriteInput::RecordPushObservation(_) => {
            output matches LedgerSemaWriteOutput::EventRecorded(recorded) && recorded@
                == ledger::next_sequence(state.events)
        },
        LedgerSemaWriteInput::RegisterRepository(registration) => {
            output matches LedgerSemaWriteOutput::Registered(registered) && registered@ == (
            RegisteredModel { repository_name: registration@.repository_name })
        },
        LedgerSemaWriteInput::RetireRepository(request) => {
            output matches LedgerSemaWriteOutput::Retired(retired) && retired@ == (RetiredModel {
                repository_name: request@.repository_name,
            })
        },
        LedgerSemaWriteInput::SetSpoolDirectoryPolicy(policy) => {
            output matches LedgerSemaWriteOutput::SpoolDirectoryPolicySet(set) && set@ == (
            SpoolDirectoryPolicySetModel { path: policy@.path })
        },
        LedgerSemaWriteInput::SetMirrorPolicy(policy) => {
            output matches LedgerSemaWriteOutput::MirrorPolicySet(set) && set@ == (
            MirrorPolicySetModel {
                repository_name: policy@.repository_name,
                target: policy@.target,
            })
        },
    }
}

/// Every write keeps the ledger well-formed, and the record writes that it leaves
/// can be made one after the other and lead to the same ledger.
pub proof fn lemma_write_replays(state: LedgerState, input: LedgerSemaWriteInput)
    requires
        state.well_formed(),
        records_event(input) ==> ledger::has_room(state.events),
    ensures
        write_state(state, input).well_formed(),
        ledger::replayable(state, write_log(state, input)),
        ledger::replayed(state, write_log(state, input)) == write_state(state, input),
{
    match input {
        LedgerSemaWriteInput::RecordHookNotification(notification) => {
            ledger::lemma_notified(state, notification@)
        },
        LedgerSemaWriteInput::RecordPushObservation(observation) => {
            ledger::lemma_observed(state, observation@)
        },
        LedgerSemaWriteInput::RegisterRepository(registration) => {
            ledger::lemma_registered(state, registration@)
        },
        LedgerSemaWriteInput::RetireRepository(request) => {
            ledger::lemma_retired(state, request@.repository_name)
        },
        LedgerSemaWriteInput::SetSpoolDirectoryPolicy(policy) => {
            ledger::lemma_spool_policy_set(state, policy@)
        },
        LedgerSemaWriteInput::SetMirrorPolicy(policy) => {
            ledger::lemma_mirror_policy_set(state, policy@)
        },
    }
}

/// A store that is opened again on what the record engine holds after it made the
/// writes is the store that left them.
pub proof fn lemma_reopened(state: LedgerState, input: LedgerSemaWriteInput)
    requires
        state.well_formed(),
        records_event(input) ==> ledger::has_room(state.events),
    ensures
        store::snapshot_fault(ledger::replayed(state, write_log(state, input))) is None,
        store::arranged(ledger::replayed(state, write_log(state, input))) == write_state(
            state,
            input,
        ),
{
    lemma_write_replays(state, input);
    store::lemma_arranged(write_state(state, input));
}

/// The receipt of a write is a reply of the contract that the request came in.
pub proof fn lemma_reply_tier(
    state: LedgerState,
    engines: RepositoryLedgerNexusEngines,
    input: RepositoryLedgerSignalInput,
    output: LedgerSemaWriteOutput,
)
    requires
        nexus::signal_action(input) matches RepositoryLedgerNexusAction::CommandSemaWrite(write)
            && write_receipt(state, write, output),
    ensures
        nexus::output_tier(nexus::write_reply(engines, output)) == nexus::input_tier(input),
{
}

/// The replies to the operations of a batch that failed.
pub open spec fn invalidated<Payload>(count: nat) -> Seq<SubReply<Payload>> {
    Seq::new(count, |i: int| SubReply::Invalidated)
}

/// Whether a reply says that the batch of `count` operations failed with `error`:
/// classified as that error is, and with every operation invalidated.
pub open spec fn is_aborted<Payload>(
    reply: FrameReply<Payload>,
    error: Error,
    count: nat,
) -> bool {
    &&& reply matches FrameReply::Accepted { outcome, per_operation }
    &&& outcome == (AcceptedOutcome::BatchAborted {
        reason: error::failure_reason(error),
        retry: error::retry_advice(error),
        commit: error::commit_state(error),
    })
    &&& per_operation@ == invalidated::<Payload>(count)
}

/// Whether a reply says that the one operation of the batch was carried out and
/// answered with `payload`.
pub open spec fn is_committed<Payload: View>(
    reply: FrameReply<Payload>,
    payload: Payload::V,
) -> bool {
    &&& reply matches FrameReply::Accepted { outcome, per_operation }
    &&& outcome == AcceptedOutcome::Committed
    &&& per_operation@.len() == 1
    &&& per_operation@[0] matches SubReply::Completed(answer)
    &&& answer@ == payload
}

/// The reply to a batch of `operation_count` operations that failed with `error`.
pub fn batch_aborted_reply<Payload>(error: &Error, operation_count: usize) -> (reply: FrameReply<
    Payload,
>)
    ensures
        is_aborted(
            reply,
            *error,
            if operation_count == 0 {
                1
            } else {
                operation_count as nat
            },
        ),
{
    let mut per_operation = NonEmpty::single(SubReply::Invalidated);
    let mut count: usize = 1;
    assert(per_operation@ =~= invalidated::<Payload>(1));
    while count < operation_count
        invariant
            per_operation@ == invalidated::<Payload>(count as nat),
            count >= 1,
            count <= operation_count || (operation_count == 0 && count == 1),
        decreases operation_count - count,
    {
        per_operation.push(SubReply::Invalidated);
        count += 1;
        assert(per_operation@ =~= invalidated::<Payload>(count as nat));
    }
    FrameReply::batch_aborted(
        error.batch_failure_reason(),
        error.retry_classification(),
        error.commit_status(),
        per_operation,
    )
}

/// What a request of `operation_count` operations is answered once the record
/// engine was given the writes of the store: the reply where it made them, and
/// otherwise that the batch was aborted with its error.
pub fn settled_reply<Payload>(
    reply: FrameReply<Payload>,
    outcome: Result<()>,
    operation_count: usize,
) -> (answer: FrameReply<Payload>)
    ensures
        match outcome {
            Ok(()) => answer == reply,
            Err(error) => is_aborted(
                answer,
                error,
                if operation_count == 0 {
                    1
                } else {
                    operation_count as nat
                },
            ),
        },
{
    match outcome {
        Ok(()) => reply,
        Err(error) => batch_aborted_reply(&error, operation_count),
    }
}

impl Store {
    /// Carries out a write that the nexus commands.
    pub fn apply_sema_write(&mut self, input: LedgerSemaWriteInput) -> (result: Result<
        LedgerSemaWriteOutput,
    >)
        requires
            old(self).well_formed(),
            records_event(input) ==> ledger::has_room(old(self)@.events),
        ensures
            final(self).well_formed(),
            final(self)@ == write_state(old(self)@, input),
            final(self).pending() == old(self).pending() + write_log(old(self)@, input),
            match result {
                Ok(output) => write_accepted(old(self)@, input) && write_receipt(
                    old(self)@,
                    input,
                    output,
                ),
                Err(error) => !write_accepted(old(self)@, input) && write_refused(
                    old(self)@,
                    input,
                    error,
                ),
            },
    {
        match input {
            LedgerSemaWriteInput::RecordHookNotification(notification) => {
                match self.record_hook_notification(notification) {
                    Ok(recorded) => Ok(LedgerSemaWriteOutput::EventRecorded(recorded)),
                    Err(error) => Err(error),
                }
            },
            LedgerSemaWriteInput::RecordPushObservation(observation) => {
                match self.record_push_observation(observation) {
                    Ok(recorded) => Ok(LedgerSemaWriteOutput::EventRecorded(recorded)),
                    Err(error) => Err(error),
                }
            },
            LedgerSemaWriteInput::RegisterRepository(registration) => {
                let repository_name = registration.repository_name.duplicate();
                match self.register_repository(registration) {
                    Ok(_) => Ok(LedgerSemaWriteOutput::Registered(Registered { repository_name })),
                    Err(error) => Err(error),
                }
            },
            LedgerSemaWriteInput::RetireRepository(request) => {
                match self.retire_repository(request) {
                    Ok(retired) => Ok(LedgerSemaWriteOutput::Retired(retired)),
                    Err(error) => Err(error),
                }
            },
            LedgerSemaWriteInput::SetSpoolDirectoryPolicy(policy) => {
                match self.set_spool_directory_policy(policy) {
                    Ok(set) => Ok(LedgerSemaWriteOutput::SpoolDirectoryPolicySet(set)),
                    Err(error) => Err(error),
                }
            },
            LedgerSemaWriteInput::SetMirrorPolicy(policy) => {
                match self.set_mirror_policy(policy) {
                    Ok(set) => Ok(LedgerSemaWriteOutput::MirrorPolicySet(set)),
                    Err(error) => Err(error),
                }
            },
        }
    }

    /// Carries out a read that the nexus commands.
    pub fn observe_sema_read(&self, input: LedgerSemaReadInput) -> (result: Result<
        LedgerSemaReadOutput,
    >)
        ensures
            ({
                let LedgerSemaReadInput::ReadQuery(query) = input;
                &&& result matches Ok(LedgerSemaReadOutput::QueryResult(answer))
                &&& answer@ == store::query_answer(self@, query@)
            }),
    {
        match input {
            LedgerSemaReadInput::ReadQuery(query) => match self.execute_query(query) {
                Ok(answer) => Ok(LedgerSemaReadOutput::QueryResult(answer)),
                Err(error) => Err(error),
            },
        }
    }
}

impl RepositoryLedgerNexusEngines {
    /// Has the store carry out a write, and remembers the error where it refuses.
    pub fn apply_sema_write(&mut self, store: &mut Store, write: LedgerSemaWriteInput) -> (work:
        RepositoryLedgerNexusWork)
        requires
            old(store).well_formed(),
            records_event(write) ==> ledger::has_room(old(store)@.events),
        ensures
            final(store).well_formed(),
            final(store)@ == write_state(old(store)@, write),
            final(store).pending() == old(store).pending() + write_log(old(store)@, write),
            work matches RepositoryLedgerNexusWork::SemaWriteCompleted(output) && (if write_accepted(
                old(store)@,
                write,
            ) {
                &&& write_receipt(old(store)@, write, output)
                &&& *final(self) == *old(self)
            } else {
                &&& output is WriteRejected
                &&& final(self).last_error matches Some(error)
                &&& write_refused(old(store)@, write, error)
                &&& *final(self) == (RepositoryLedgerNexusEngines {
                    last_error: final(self).last_error,
                    ..*old(self)
                })
            }),
    {
        let output = match store.apply_sema_write(write) {
            Ok(output) => output,
            Err(error) => {
                self.last_error = Some(error);
                LedgerSemaWriteOutput::WriteRejected
            },
        };
        RepositoryLedgerNexusWork::SemaWriteCompleted(output)
    }

    /// Has the store carry out a read, and remembers the error where it refuses.
    pub fn observe_sema_read(&mut self, store: &Store, read: LedgerSemaReadInput) -> (work:
        RepositoryLedgerNexusWork)
        ensures
            ({
                let LedgerSemaReadInput::ReadQuery(query) = read;
                &&& work matches RepositoryLedgerNexusWork::SemaReadCompleted(
                    LedgerSemaReadOutput::QueryResult(answer),
                )
                &&& answer@ == store::query_answer(store@, query@)
                &&& *final(self) == *old(self)
            }),
    {
        let output = match store.observe_sema_read(read) {
            Ok(output) => output,
            Err(error) => {
                self.last_error = Some(error);
                LedgerSemaReadOutput::ReadMiss
            },
        };
        RepositoryLedgerNexusWork::SemaReadCompleted(output)
    }

    /// Works until there is a reply. A request takes one storage step; after that
    /// step the reply follows.
    pub fn drive(&mut self, store: &mut Store, work: RepositoryLedgerNexusWork) -> (output:
        RepositoryLedgerSignalOutput)
        requires
            old(store).well_formed(),
            work matches RepositoryLedgerNexusWork::SignalArrived(input) ==> (nexus::signal_action(
                input,
            ) matches RepositoryLedgerNexusAction::CommandSemaWrite(write) ==> (records_event(write)
                ==> ledger::has_room(old(store)@.events))),
        ensures
            final(store).well_formed(),
            match work {
                RepositoryLedgerNexusWork::SemaWriteCompleted(done) => {
                    &&& output == nexus::write_reply(*old(self), done)
                    &&& *final(self) == *old(self)
                    &&& final(store)@ == old(store)@
                    &&& final(store).pending() == old(store).pending()
                },
                RepositoryLedgerNexusWork::SemaReadCompleted(done) => {
                    &&& output == nexus::read_reply(*old(self), done)
                    &&& *final(self) == *old(self)
                    &&& final(store)@ == old(store)@
                    &&& final(store).pending() == old(store).pending()
                },
                RepositoryLedgerNexusWork::SignalArrived(input) => {
                    &&& *final(self) == (RepositoryLedgerNexusEngines {
                        last_error: final(self).last_error,
                        ..nexus::engines_for(*old(self), input)
                    })
                    &&& match nexus::signal_action(input) {
                        RepositoryLedgerNexusAction::CommandSemaWrite(write) => {
                            &&& final(store)@ == write_state(old(store)@, write)
                            &&& final(store).pending() == old(store).pending() + write_log(
                                old(store)@,
                                write,
                            )
                            &&& if write_accepted(old(store)@, write) {
                                &&& final(self).last_error == old(self).last_error
                                &&& exists|done: LedgerSemaWriteOutput|
                                    write_receipt(old(store)@, write, done) && output
                                        == #[trigger] nexus::write_reply(*final(self), done)
                            } else {
                                &&& final(self).last_error matches Some(error)
                                &&& write_refused(old(store)@, write, error)
                                &&& output == nexus::failure_output(*final(self))
                            }
                        },
                        RepositoryLedgerNexusAction::CommandSemaRead(
                            LedgerSemaReadInput::ReadQuery(query),
                        ) => {
                            &&& final(store)@ == old(store)@
                            &&& final(store).pending() == old(store).pending()
                            &&& final(self).last_error == old(self).last_error
                            &&& output matches RepositoryLedgerSignalOutput::Ordinary(
                                contract::Reply::QueryResult(answer),
                            )
                            &&& answer@ == store::query_answer(old(store)@, query@)
                        },
                        RepositoryLedgerNexusAction::ReplyToSignal(_) => false,
                    }
                },
            },
        decreases
                if work is SignalArrived {
                    1int
                } else {
                    0int
                },
    {
        match self.decide_next_step(work) {
            NextStep::Reply(output) => output,
            NextStep::SemaWrite(write) => {
                let done = self.apply_sema_write(store, write);
                self.drive(store, done)
            },
            NextStep::SemaRead(read) => {
                let done = self.observe_sema_read(store, read);
                self.drive(store, done)
            },
        }
    }
}

/// The ledger after an ordinary operation.
pub open spec fn ordinary_served(
    state: LedgerState,
    operation: contract::OperationModel,
) -> LedgerState {
    match operation {
        contract::OperationModel::Receive(notification) => ledger::notified(state, notification),
        contract::OperationModel::Observe(observation) => ledger::observed(state, observation),
        contract::OperationModel::Query(_) => state,
    }
}

/// The record writes that an ordinary operation leaves for the record engine.
pub open spec fn ordinary_writes(
    state: LedgerState,
    operation: contract::OperationModel,
) -> Seq<StoreWriteModel> {
    match operation {
        contract::OperationModel::Receive(notification) => {
            ledger::notification_writes(state, notification)
        },
        contract::OperationModel::Observe(observation) => {
            ledger::observation_writes(state, observation)
        },
        contract::OperationModel::Query(_) => Seq::empty(),
    }
}

/// What an ordinary operation is answered; nothing where the store refuses it.
pub open spec fn ordinary_answer(
    state: LedgerState,
    operation: contract::OperationModel,
) -> Option<contract::ReplyModel> {
    match operation {
        contract::OperationModel::Receive(_) => Some(
            contract::ReplyModel::EventRecorded(ledger::next_sequence(state.events)),
        ),
        contract::OperationModel::Observe(observation) => if ledger::admitted_commits(
            state,
            observation,
        ) == observation.commits.len() {
            Some(contract::ReplyModel::EventRecorded(ledger::next_sequence(state.events)))
        } else {
            None
        },
        contract::OperationModel::Query(query) => Some(
            contract::ReplyModel::QueryResult(store::query_answer(state, query)),
        ),
    }
}

/// The ledger after a meta operation.
pub open spec fn meta_served(
    state: LedgerState,
    operation: meta_contract::OperationModel,
) -> LedgerState {
    match operation {
        meta_contract::OperationModel::Register(registration) => {
            ledger::registered(state, registration)
        },
        meta_contract::OperationModel::Retire(request) => {
            ledger::retired(state, request.repository_name)
        },
        meta_contract::OperationModel::SetSpoolDirectory(policy) => {
            ledger::spool_policy_set(state, policy)
        },
        meta_contract::OperationModel::SetMirror(policy) => {
            ledger::mirror_policy_set(state, policy)
        },
    }
}

/// The record writes that a meta operation leaves for the record engine.
pub open spec fn meta_writes(
    state: LedgerState,
    operation: meta_contract::OperationModel,
) -> Seq<StoreWriteModel> {
    match operation {
        meta_contract::OperationModel::Register(registration) => {
            ledger::registration_writes(state, registration)
        },
        meta_contract::OperationModel::Retire(request) => {
            ledger::retirement_writes(state, request.repository_name)
        },
        meta_contract::OperationModel::SetSpoolDirectory(policy) => {
            ledger::spool_policy_writes(state, policy)
        },
        meta_contract::OperationModel::SetMirror(policy) => {
            ledger::mirror_policy_writes(state, policy)
        },
    }
}

/// What a meta operation is answered; nothing where the store refuses it.
pub open spec fn meta_answer(
    state: LedgerState,
    operation: meta_contract::OperationModel,
) -> Option<meta_contract::ReplyModel> {
    match operation {
        meta_contract::OperationModel::Register(registration) => Some(
            meta_contract::ReplyModel::Registered(
                RegisteredModel { repository_name: registration.repository_name },
            ),
        ),
        meta_contract::OperationModel::Retire(request) => if table::holds::<StoredRegistration>(
            state.registrations,
            request.repository_name,
        ) {
            Some(
                meta_contract::ReplyModel::Retired(
                    RetiredModel { repository_name: request.repository_name },
                ),
            )
        } else {
            None
        },
        meta_contract::OperationModel::SetSpoolDirectory(policy) => Some(
            meta_contract::ReplyModel::SpoolDirectoryPolicySet(
                SpoolDirectoryPolicySetModel { path: policy.path },
            ),
        ),
        meta_contract::OperationModel::SetMirror(policy) => Some(
            meta_contract::ReplyModel::MirrorPolicySet(
                MirrorPolicySetModel {
                    repository_name: policy.repository_name,
                    target: policy.target,
                },
            ),
        ),
    }
}

/// The catalog and the policies change through the meta contract alone, and what
/// was pushed through the ordinary contract alone.
pub proof fn lemma_authority_tiers(
    state: LedgerState,
    ordinary: contract::OperationModel,
    meta: meta_contract::OperationModel,
)
    requires
        state.well_formed(),
    ensures
        ordinary_served(state, ordinary).registrations == state.registrations,
        ordinary_served(state, ordinary).spool_directory_policy == state.spool_directory_policy,
        ordinary_served(state, ordinary).mirror_policies == state.mirror_policies,
        meta_served(state, meta).events == state.events,
        meta_served(state, meta).commits == state.commits,
{
    lemma_meta_tier(state, meta);
}

proof fn lemma_meta_tier(state: LedgerState, meta: meta_contract::OperationModel)
    requires
        state.well_formed(),
    ensures
        meta_served(state, meta).events == state.events,
        meta_served(state, meta).commits == state.commits,
{
    match meta {
        meta_contract::OperationModel::Register(registration) => {
            ledger::lemma_registered(state, registration)
        },
        meta_contract::OperationModel::Retire(request) => {
            ledger::lemma_retired(state, request.repository_name)
        },
        meta_contract::OperationModel::SetSpoolDirectory(policy) => {
            ledger::lemma_spool_policy_set(state, policy)
        },
        meta_contract::OperationModel::SetMirror(policy) => {
            ledger::lemma_mirror_policy_set(state, policy)
        },
    }
}

/// What an ordinary operation does and is answered. A notification becomes the last
/// event, whole, and is answered with the number of that event. So is a push, whose
/// commits are stored with it; it is answered so exactly where all of them were
/// stored. A query changes nothing, and is answered from the ledger as it is.
pub proof fn lemma_ordinary_operation(state: LedgerState, operation: contract::OperationModel)
    requires
        state.well_formed(),
        !(operation is Query) ==> ledger::has_room(state.events),
    ensures
        ({
            let after = ordinary_served(state, operation);
            let answer = ordinary_answer(state, operation);
            match operation {
                contract::OperationModel::Receive(notification) => {
                    &&& after.events.drop_last() == state.events
                    &&& after.events.last().notification == notification
                    &&& after.commits == state.commits
                    &&& answer == Some(
                        contract::ReplyModel::EventRecorded(after.events.last().sequence),
                    )
                    &&& ordinary_writes(state, operation) == seq![
                        StoreWriteModel::AssertEvent(after.events.last()),
                    ]
                },
                contract::OperationModel::Observe(observation) => {
                    &&& after.events.drop_last() == state.events
                    &&& after.events.last().notification == observation.notification
                    &&& after.commits.len() <= state.commits.len() + observation.commits.len()
                    &&& answer is Some <==> after.commits.len() == state.commits.len()
                        + observation.commits.len()
                    &&& answer is Some ==> answer == Some(
                        contract::ReplyModel::EventRecorded(after.events.last().sequence),
                    )
                    &&& ordinary_writes(state, operation).len() == 1 + after.commits.len()
                        - state.commits.len()
                    &&& ordinary_writes(state, operation)[0] == StoreWriteModel::AssertEvent(
                        after.events.last(),
                    )
                },
                contract::OperationModel::Query(query) => {
                    &&& after == state
                    &&& ordinary_writes(state, operation).len() == 0
                    &&& answer == Some(
                        contract::ReplyModel::QueryResult(store::query_answer(state, query)),
                    )
                },
            }
        }),
{
    match operation {
        contract::OperationModel::Receive(notification) => {
            ledger::lemma_notification_kept_whole(state, notification);
        },
        contract::OperationModel::Observe(observation) => {
            ledger::lemma_notification_kept_whole(state, observation.notification);
            ledger::lemma_push_kept_whole(state, observation);
        },
        contract::OperationModel::Query(_) => {},
    }
}

/// What a meta operation does and is answered. A registration takes the place of the
/// entry of its repository, or is added; a retirement takes that entry out, and is
/// refused exactly where there is none; a spool policy becomes the only one; and a
/// mirror policy takes the place of that of its repository, or is added. Each is
/// answered with what it was given.
pub proof fn lemma_meta_operation(state: LedgerState, operation: meta_contract::OperationModel)
    requires
        state.well_formed(),
    ensures
        ({
            let after = meta_served(state, operation);
            let answer = meta_answer(state, operation);
            match operation {
                meta_contract::OperationModel::Register(registration) => {
                    &&& after == (LedgerState { registrations: after.registrations, ..state })
                    &&& forall|other: contract::RegistrationModel| #[trigger]
                        after.registrations.contains(other) <==> (other == registration || (
                        state.registrations.contains(other) && other.repository_name
                            != registration.repository_name))
                    &&& answer matches Some(meta_contract::ReplyModel::Registered(registered))
                    &&& registered.repository_name == registration.repository_name
                },
                meta_contract::OperationModel::Retire(request) => {
                    &&& after == (LedgerState { registrations: after.registrations, ..state })
                    &&& forall|other: contract::RegistrationModel| #[trigger]
                        after.registrations.contains(other) <==> (state.registrations.contains(
                            other,
                        ) && other.repository_name != request.repository_name)
                    &&& answer is Some <==> exists|i: int|
                        0 <= i < state.registrations.len() && (
                        #[trigger] state.registrations[i]).repository_name
                            == request.repository_name
                    &&& answer is Some ==> {
                        &&& answer matches Some(meta_contract::ReplyModel::Retired(retired))
                        &&& retired.repository_name == request.repository_name
                    }
                },
                meta_contract::OperationModel::SetSpoolDirectory(policy) => {
                    &&& after == (LedgerState { spool_directory_policy: seq![policy], ..state })
                    &&& answer matches Some(
                        meta_contract::ReplyModel::SpoolDirectoryPolicySet(set),
                    )
                    &&& set.path == policy.path
                },
                meta_contract::OperationModel::SetMirror(policy) => {
                    &&& after == (LedgerState { mirror_policies: after.mirror_policies, ..state })
                    &&& forall|other: meta_contract::MirrorPolicyModel| #[trigger]
                        after.mirror_policies.contains(other) <==> (other == policy || (
                        state.mirror_policies.contains(other) && other.repository_name
                            != policy.repository_name))
                    &&& answer matches Some(meta_contract::ReplyModel::MirrorPolicySet(set))
                    &&& set.repository_name == policy.repository_name
                    &&& set.target == policy.target
                },
            }
        }),
        ledger::replayable(state, meta_writes(state, operation)),
        ledger::replayed(state, meta_writes(state, operation)) == meta_served(state, operation),
        !(operation is Retire) ==> meta_writes(state, operation).len() == 1,
        operation is Retire ==> meta_writes(state, operation).len() == if meta_answer(
            state,
            operation,
        ) is Some {
            1nat
        } else {
            0nat
        },
        match operation {
            meta_contract::OperationModel::Register(registration) => {
                ||| meta_writes(state, operation)[0] == StoreWriteModel::MutateRegistration(
                    registration,
                )
                ||| meta_writes(state, operation)[0] == StoreWriteModel::AssertRegistration(
                    registration,
                )
            },
            meta_contract::OperationModel::Retire(request) => meta_answer(state, operation) is Some
                ==> meta_writes(state, operation)[0] == StoreWriteModel::RetractRegistration(
                request.repository_name,
            ),
            meta_contract::OperationModel::SetSpoolDirectory(policy) => {
                ||| meta_writes(state, operation)[0] == StoreWriteModel::MutateSpoolDirectoryPolicy(
                    policy,
                )
                ||| meta_writes(state, operation)[0] == StoreWriteModel::AssertSpoolDirectoryPolicy(
                    policy,
                )
            },
            meta_contract::OperationModel::SetMirror(policy) => {
                ||| meta_writes(state, operation)[0] == StoreWriteModel::MutateMirrorPolicy(policy)
                ||| meta_writes(state, operation)[0] == StoreWriteModel::AssertMirrorPolicy(policy)
            },
        },
{
    match operation {
        meta_contract::OperationModel::Register(registration) => {
            ledger::lemma_registered(state, registration);
        },
        meta_contract::OperationModel::Retire(request) => {
            ledger::lemma_retired(state, request.repository_name);
            store::lemma_catalog_holds(state.registrations, request.repository_name);
        },
        meta_contract::OperationModel::SetSpoolDirectory(policy) => {
            ledger::lemma_spool_policy_set(state, policy);
        },
        meta_contract::OperationModel::SetMirror(policy) => {
            ledger::lemma_mirror_policy_set(state, policy);
        },
    }
}

/// A write that the nexus commands does what the operation of a contract does that
/// it stands for.
pub proof fn lemma_write_serves(state: LedgerState, input: LedgerSemaWriteInput)
    ensures
        match input {
            LedgerSemaWriteInput::RecordHookNotification(notification) => write_state(state, input)
                == ordinary_served(state, contract::OperationModel::Receive(notification@)),
            LedgerSemaWriteInput::RecordPushObservation(observation) => write_state(state, input)
                == ordinary_served(state, contract::OperationModel::Observe(observation@)),
            LedgerSemaWriteInput::RegisterRepository(registration) => write_state(state, input)
                == meta_served(state, meta_contract::OperationModel::Register(registration@)),
            LedgerSemaWriteInput::RetireRepository(request) => write_state(state, input)
                == meta_served(state, meta_contract::OperationModel::Retire(request@)),
            LedgerSemaWriteInput::SetSpoolDirectoryPolicy(policy) => write_state(state, input)
                == meta_served(state, meta_contract::OperationModel::SetSpoolDirectory(policy@)),
            LedgerSemaWriteInput::SetMirrorPolicy(policy) => write_state(state, input)
                == meta_served(state, meta_contract::OperationModel::SetMirror(policy@)),
        },
{
}

/// A query changes nothing and leaves nothing to write.
pub proof fn lemma_queries_read_only(state: LedgerState, query: contract::QueryModel)
    ensures
        ordinary_served(state, contract::OperationModel::Query(query)) == state,
        ordinary_writes(state, contract::OperationModel::Query(query)) == Seq::<
            StoreWriteModel,
        >::empty(),
        ordinary_answer(state, contract::OperationModel::Query(query)) is Some,
{
}

/// Whether a reply says that the record engine refused the one operation of the
/// batch: what it left in the store, and whether to try again, is not known.
pub open spec fn is_refused<Payload>(reply: FrameReply<Payload>) -> bool {
    &&& reply matches FrameReply::Accepted { outcome, per_operation }
    &&& outcome == (AcceptedOutcome::BatchAborted {
        reason: BatchFailureReason::EngineRejected,
        retry: RetryClassification::Unknown,
        commit: CommitStatus::Unknown,
    })
    &&& per_operation@ == invalidated::<Payload>(1)
}

/// The three replies, in full. A batch that was carried out is committed and holds
/// the one answer. A batch that failed is aborted: every operation of it is
/// invalidated, none completed, and the peer learns whether the engine was out of
/// reach, whether to try again, and whether something may have been stored. A batch
/// that the record engine refused may have left something in the store.
pub proof fn lemma_replies<Payload: View>(
    reply: FrameReply<Payload>,
    answer: Payload::V,
    error: Error,
    count: nat,
)
    ensures
        is_committed(reply, answer) <==> {
            &&& reply matches FrameReply::Accepted {
                outcome: AcceptedOutcome::Committed,
                per_operation,
            }
            &&& per_operation@.len() == 1
            &&& per_operation@[0] matches SubReply::Completed(payload)
            &&& payload@ == answer
        },
        is_aborted(reply, error, count) <==> {
            &&& reply matches FrameReply::Accepted {
                outcome: AcceptedOutcome::BatchAborted { reason, retry, commit },
                per_operation,
            }
            &&& reason == BatchFailureReason::EngineUnavailable <==> (error is Io
                || error is RuntimeFrame || error is ActorCall || error is DaemonRuntime)
            &&& retry == RetryClassification::Unknown <==> (error is Io || error is RuntimeFrame
                || error is ActorCall || error is DaemonRuntime || error is Engine)
            &&& commit == CommitStatus::Unknown <==> (error is Io || error is RuntimeFrame
                || error is ActorCall || error is DaemonRuntime || error is Engine)
            &&& per_operation@.len() == count
            &&& forall|i: int| 0 <= i < count ==> (#[trigger] per_operation@[i]) is Invalidated
        },
        is_refused(reply) <==> {
            &&& reply matches FrameReply::Accepted {
                outcome: AcceptedOutcome::BatchAborted { reason, retry, commit },
                per_operation,
            }
            &&& reason == BatchFailureReason::EngineRejected
            &&& retry == RetryClassification::Unknown
            &&& commit == CommitStatus::Unknown
            &&& per_operation@.len() == 1
            &&& per_operation@[0] is Invalidated
        },
{
    if reply is Accepted {
        let per_operation = reply->per_operation;
        if per_operation@.len() == count && forall|i: int|
            0 <= i < count ==> (#[trigger] per_operation@[i]) is Invalidated {
            assert(per_operation@ =~= invalidated::<Payload>(count));
        }
        if per_operation@ == invalidated::<Payload>(count) {
            assert forall|i: int| 0 <= i < count implies (
            #[trigger] per_operation@[i]) is Invalidated by {
                assert(invalidated::<Payload>(count)[i] is Invalidated);
            }
        }
        if per_operation@.len() == 1 && per_operation@[0] is Invalidated {
            assert(per_operation@ =~= invalidated::<Payload>(1));
        }
        if per_operation@ == invalidated::<Payload>(1) {
            assert(invalidated::<Payload>(1)[0] is Invalidated);
        }
    }
}

impl Store {
    /// Serves a batch of the ordinary contract. A batch holds one operation; a
    /// larger one is aborted before anything is stored.
    pub fn handle_ordinary_request(&mut self, request: Request<contract::Operation>) -> (reply:
        FrameReply<contract::Reply>)
        requires
            old(self).well_formed(),
            request.payloads@.len() <= usize::MAX,
            request.payloads@.len() == 1 && !(request.payloads@[0] is Query) ==> ledger::has_room(
                old(self)@.events,
            ),
        ensures
            final(self).well_formed(),
            final(self)@.registrations == old(self)@.registrations,
            final(self)@.spool_directory_policy == old(self)@.spool_directory_policy,
            final(self)@.mirror_policies == old(self)@.mirror_policies,
            if request.payloads@.len() == 1 {
                let operation = request.payloads@[0]@;
                &&& final(self)@ == ordinary_served(old(self)@, operation)
                &&& final(self).pending() == old(self).pending() + ordinary_writes(
                    old(self)@,
                    operation,
                )
                &&& match ordinary_answer(old(self)@, operation) {
                    Some(answer) => is_committed(reply, answer),
                    None => is_refused(reply),
                }
            } else {
                let operation_count = request.payloads@.len() as usize;
                &&& final(self)@ == old(self)@
                &&& final(self).pending() == old(self).pending()
                &&& is_aborted(
                    reply,
                    Error::UnsupportedAtomicBatch { operation_count },
                    request.payloads@.len(),
                )
            },
    {
        proof {
            request.payloads.lemma_not_empty();
        }
        let operation_count: usize = request.payloads.len();
        if operation_count != 1 {
            return batch_aborted_reply(
                &Error::UnsupportedAtomicBatch { operation_count },
                operation_count,
            );
        }
        let ghost before = *self;
        let operation = request.payloads.into_head();
        let ghost wanted = operation@;
        let mut engines = RepositoryLedgerNexusEngines::new();
        let output = engines.drive(
            self,
            RepositoryLedgerNexusWork::SignalArrived(
                RepositoryLedgerSignalInput::Ordinary(operation),
            ),
        );
        assert(self.pending() =~= before.pending() + ordinary_writes(before@, wanted));
        if let Some(error) = engines.take_last_error() {
            return batch_aborted_reply(&error, operation_count);
        }
        match output {
            RepositoryLedgerSignalOutput::Ordinary(reply) => {
                FrameReply::committed(NonEmpty::single(SubReply::Completed(reply)))
            },
            RepositoryLedgerSignalOutput::Meta(_) => {
                batch_aborted_reply(&Error::NexusReplyTierMismatch, operation_count)
            },
        }
    }

    /// Serves a batch of the meta contract. A batch holds one operation; a larger
    /// one is aborted before anything is stored.
    pub fn handle_meta_request(&mut self, request: Request<meta_contract::Operation>) -> (reply:
        FrameReply<meta_contract::Reply>)
        requires
            old(self).well_formed(),
            request.payloads@.len() <= usize::MAX,
        ensures
            final(self).well_formed(),
            final(self)@.events == old(self)@.events,
            final(self)@.commits == old(self)@.commits,
            if request.payloads@.len() == 1 {
                let operation = request.payloads@[0]@;
                &&& final(self)@ == meta_served(old(self)@, operation)
                &&& final(self).pending() == old(self).pending() + meta_writes(
                    old(self)@,
                    operation,
                )
                &&& match meta_answer(old(self)@, operation) {
                    Some(answer) => is_committed(reply, answer),
                    None => is_refused(reply),
                }
            } else {
                let operation_count = request.payloads@.len() as usize;
                &&& final(self)@ == old(self)@
                &&& final(self).pending() == old(self).pending()
                &&& is_aborted(
                    reply,
                    Error::UnsupportedAtomicBatch { operation_count },
                    request.payloads@.len(),
                )
            },
    {
        proof {
            request.payloads.lemma_not_empty();
        }
        let operation_count: usize = request.payloads.len();
        if operation_count != 1 {
            return batch_aborted_reply(
                &Error::UnsupportedAtomicBatch { operation_count },
                operation_count,
            );
        }
        let operation = request.payloads.into_head();
        proof {
            self.lemma_well_formed();
            lemma_meta_tier(self@, operation@);
        }
        let mut engines = RepositoryLedgerNexusEngines::new();
        let output = engines.drive(
            self,
            RepositoryLedgerNexusWork::SignalArrived(RepositoryLedgerSignalInput::Meta(operation)),
        );
        if let Some(error) = engines.take_last_error() {
            return batch_aborted_reply(&error, operation_count);
        }
        match output {
            RepositoryLedgerSignalOutput::Meta(reply) => {
                FrameReply::committed(NonEmpty::single(SubReply::Completed(reply)))
            },
            RepositoryLedgerSignalOutput::Ordinary(_) => {
                batch_aborted_reply(&Error::NexusReplyTierMismatch, operation_count)
            },
        }
    }
}

/// A request of the ordinary contract is answered for what it did. A batch of one
/// notification, or of a push that was stored whole, is committed and answered with
/// the number of the event that it became; a push that was not is aborted; a query is
/// answered from the ledger as it is and changes nothing; and a batch of another size
/// is aborted, every operation of it, and changes nothing.
pub proof fn lemma_ordinary_request_served(
    store: &mut Store,
    request: Request<contract::Operation>,
    reply: FrameReply<contract::Reply>,
)
    requires
        old(store).well_formed(),
        request.payloads@.len() == 1 && !(request.payloads@[0] is Query) ==> ledger::has_room(
            old(store)@.events,
        ),
        call_ensures(Store::handle_ordinary_request, (store, request), reply),
    ensures
        reply is Accepted,
        request.payloads@.len() != 1 ==> {
            &&& final(store)@ == old(store)@
            &&& final(store).pending() == old(store).pending()
            &&& reply->outcome is BatchAborted
            &&& reply->per_operation@.len() == request.payloads@.len()
            &&& forall|i: int|
                0 <= i < reply->per_operation@.len() ==> (
                #[trigger] reply->per_operation@[i]) is Invalidated
        },
        request.payloads@.len() == 1 ==> reply->per_operation@.len() == 1,
        request.payloads@.len() == 1 && request.payloads@[0] is Receive ==> {
            let answer = reply->per_operation@[0];
            &&& reply->outcome is Committed
            &&& final(store)@.events.drop_last() == old(store)@.events
            &&& final(store)@.events.last().notification == request.payloads@[0]->Receive_0@
            &&& final(store)@.commits == old(store)@.commits
            &&& answer matches SubReply::Completed(contract::Reply::EventRecorded(recorded))
            &&& recorded.sequence@ == final(store)@.events.last().sequence
        },
        request.payloads@.len() == 1 && request.payloads@[0] is Observe ==> {
            let answer = reply->per_operation@[0];
            let observation = request.payloads@[0]->Observe_0;
            &&& final(store)@.events.drop_last() == old(store)@.events
            &&& final(store)@.events.last().notification == observation.notification@
            &&& reply->outcome is Committed <==> final(store)@.commits.len() == old(
                store,
            )@.commits.len() + observation.commits@.len()
            &&& reply->outcome is Committed ==> {
                &&& answer matches SubReply::Completed(contract::Reply::EventRecorded(recorded))
                &&& recorded.sequence@ == final(store)@.events.last().sequence
            }
            &&& !(reply->outcome is Committed) ==> answer is Invalidated
        },
        request.payloads@.len() == 1 && request.payloads@[0] is Query ==> {
            let answer = reply->per_operation@[0];
            &&& reply->outcome is Committed
            &&& final(store)@ == old(store)@
            &&& final(store).pending() == old(store).pending()
            &&& answer matches SubReply::Completed(contract::Reply::QueryResult(result))
            &&& result@ == store::query_answer(old(store)@, request.payloads@[0]->Query_0@)
        },
{
    old(store).lemma_well_formed();
    if request.payloads@.len() == 1 {
        let operation = request.payloads@[0]@;
        lemma_ordinary_operation(old(store)@, operation);
        if ordinary_answer(old(store)@, operation) is None {
            assert(invalidated::<contract::Reply>(1)[0] is Invalidated);
        }
        assert(final(store).pending() =~= old(store).pending() + ordinary_writes(
            old(store)@,
            operation,
        ));
        if request.payloads@[0] is Query {
            assert(final(store).pending() =~= old(store).pending());
        }
    } else {
        assert forall|i: int| 0 <= i < reply->per_operation@.len() implies (
        #[trigger] reply->per_operation@[i]) is Invalidated by {
            assert(invalidated::<contract::Reply>(request.payloads@.len())[i] is Invalidated);
        }
    }
}

/// A request of the meta contract is answered for what it did: a batch of one
/// registration, retirement or policy is committed and confirmed with what it was
/// given, but for the retirement of a repository that is not in the catalog, which is
/// aborted and changes nothing; a batch of another size is aborted, every operation
/// of it, and changes nothing.
pub proof fn lemma_meta_request_served(
    store: &mut Store,
    request: Request<meta_contract::Operation>,
    reply: FrameReply<meta_contract::Reply>,
)
    requires
        old(store).well_formed(),
        call_ensures(Store::handle_meta_request, (store, request), reply),
    ensures
        reply is Accepted,
        request.payloads@.len() != 1 ==> {
            &&& final(store)@ == old(store)@
            &&& final(store).pending() == old(store).pending()
            &&& reply->outcome is BatchAborted
            &&& reply->per_operation@.len() == request.payloads@.len()
            &&& forall|i: int|
                0 <= i < reply->per_operation@.len() ==> (
                #[trigger] reply->per_operation@[i]) is Invalidated
        },
        request.payloads@.len() == 1 ==> {
            let answer = reply->per_operation@[0];
            &&& reply->per_operation@.len() == 1
            &&& reply->outcome is Committed <==> answer is Completed
            &&& !(reply->outcome is Committed) ==> answer is Invalidated && final(store)@ == old(
                store,
            )@
            &&& match request.payloads@[0] {
                meta_contract::Operation::Register(registration) => {
                    &&& final(store)@.registrations.contains(registration@)
                    &&& answer matches SubReply::Completed(
                        meta_contract::Reply::Registered(registered),
                    )
                    &&& registered.repository_name@ == registration.repository_name@
                },
                meta_contract::Operation::Retire(retirement) => {
                    &&& reply->outcome is Committed <==> exists|i: int|
                        0 <= i < old(store)@.registrations.len() && (#[trigger] old(
                            store,
                        )@.registrations[i]).repository_name == retirement.repository_name@
                    &&& reply->outcome is Committed ==> {
                        &&& answer matches SubReply::Completed(
                            meta_contract::Reply::Retired(retired),
                        )
                        &&& retired.repository_name@ == retirement.repository_name@
                    }
                },
                meta_contract::Operation::SetSpoolDirectory(policy) => {
                    &&& final(store)@.spool_directory_policy == seq![policy@]
                    &&& answer matches SubReply::Completed(
                        meta_contract::Reply::SpoolDirectoryPolicySet(set),
                    )
                    &&& set.path@ == policy.path@
                },
                meta_contract::Operation::SetMirror(policy) => {
                    &&& final(store)@.mirror_policies.contains(policy@)
                    &&& answer matches SubReply::Completed(
                        meta_contract::Reply::MirrorPolicySet(set),
                    )
                    &&& set.repository_name@ == policy.repository_name@
                    &&& set.target@ == policy.target@
                },
            }
        },
{
    old(store).lemma_well_formed();
    if request.payloads@.len() == 1 {
        let operation = request.payloads@[0]@;
        lemma_meta_operation(old(store)@, operation);
        ledger::lemma_retired(
            old(store)@,
            operation->Retire_0.repository_name,
        );
        store::lemma_catalog_holds(
            old(store)@.registrations,
            operation->Retire_0.repository_name,
        );
        if meta_answer(old(store)@, operation) is None {
            assert(invalidated::<meta_contract::Reply>(1)[0] is Invalidated);
        }
    } else {
        assert forall|i: int| 0 <= i < reply->per_operation@.len() implies (
        #[trigger] reply->per_operation@[i]) is Invalidated by {
            assert(invalidated::<meta_contract::Reply>(request.payloads@.len())[i] is Invalidated);
        }
    }
}

/// A batch that failed is aborted as a whole, with one invalidated reply for each of
/// its operations, and at least one; a reply is given out as it is once its writes
/// were made, and is replaced by that of an aborted batch where they were not.
pub proof fn lemma_batch_settled<Payload>(
    error: &Error,
    operation_count: usize,
    aborted: FrameReply<Payload>,
    reply: FrameReply<Payload>,
    outcome: Result<()>,
    answer: FrameReply<Payload>,
)
    requires
        call_ensures(batch_aborted_reply::<Payload>, (error, operation_count), aborted),
        call_ensures(settled_reply::<Payload>, (reply, outcome, operation_count), answer),
    ensures
        aborted is Accepted,
        aborted->outcome is BatchAborted,
        aborted->per_operation@.len() == if operation_count == 0 {
            1int
        } else {
            operation_count as int
        },
        forall|i: int|
            0 <= i < aborted->per_operation@.len() ==> (
            #[trigger] aborted->per_operation@[i]) is Invalidated,
        aborted->outcome->reason == BatchFailureReason::EngineUnavailable <==> (error is Io
            || error is RuntimeFrame || error is ActorCall || error is DaemonRuntime),
        outcome is Ok ==> answer == reply,
        outcome is Err ==> {
            &&& answer is Accepted
            &&& answer->outcome is BatchAborted
            &&& answer->per_operation@.len() == aborted->per_operation@.len()
            &&& forall|i: int|
                0 <= i < answer->per_operation@.len() ==> (
                #[trigger] answer->per_operation@[i]) is Invalidated
        },
{
    let count = if operation_count == 0 {
        1nat
    } else {
        operation_count as nat
    };
    assert forall|i: int| 0 <= i < count implies (
    #[trigger] invalidated::<Payload>(count)[i]) is Invalidated by {}
    assert(aborted->per_operation@ == invalidated::<Payload>(count));
    if outcome is Err {
        assert(answer->per_operation@ == invalidated::<Payload>(count));
    }
}

} // verus!
