//! The nexus: decides which storage step a request needs, and what the outcome of
//! that step is answered.
use vstd::prelude::*;

use crate::contract;
use crate::contract::{
    EventRecorded, PushObservation, Query, QueryResult, ReceiveHookNotification, Registration,
    UnimplementedReason,
};
use crate::error::Error;
use crate::meta_contract;
use crate::meta_contract::{
    MirrorPolicy, MirrorPolicySet, Registered, Retired, Retirement, SpoolDirectoryPolicy,
    SpoolDirectoryPolicySet,
};

verus! {

/// A write that the nexus commands.
#[derive(Debug, PartialEq, Eq)]
pub enum LedgerSemaWriteInput {
    RecordHookNotification(ReceiveHookNotification),
    RecordPushObservation(PushObservation),
    RegisterRepository(Registration),
    RetireRepository(Retirement),
    SetSpoolDirectoryPolicy(SpoolDirectoryPolicy),
    SetMirrorPolicy(MirrorPolicy),
}

/// A read that the nexus commands.
#[derive(Debug, PartialEq, Eq)]
pub enum LedgerSemaReadInput {
    ReadQuery(Query),
}

/// What became of a write.
#[derive(Debug, PartialEq, Eq)]
pub enum LedgerSemaWriteOutput {
    EventRecorded(EventRecorded),
    Registered(Registered),
    Retired(Retired),
    SpoolDirectoryPolicySet(SpoolDirectoryPolicySet),
    MirrorPolicySet(MirrorPolicySet),
    WriteRejected,
}

/// What became of a read.
#[derive(Debug, PartialEq, Eq)]
pub enum LedgerSemaReadOutput {
    QueryResult(QueryResult),
    ReadMiss,
}

/// An operation of either contract.
#[derive(Debug, PartialEq, Eq)]
pub enum RepositoryLedgerSignalInput {
    Ordinary(contract::Operation),
    Meta(meta_contract::Operation),
}

/// A reply of either contract.
#[derive(Debug, PartialEq, Eq)]
pub enum RepositoryLedgerSignalOutput {
    Ordinary(contract::Reply),
    Meta(meta_contract::Reply),
}

/// What the nexus is to decide on next.
#[derive(Debug, PartialEq, Eq)]
pub enum RepositoryLedgerNexusWork {
    SignalArrived(RepositoryLedgerSignalInput),
    SemaWriteCompleted(LedgerSemaWriteOutput),
    SemaReadCompleted(LedgerSemaReadOutput),
}

/// What the nexus decided.
#[derive(Debug, PartialEq, Eq)]
pub enum RepositoryLedgerNexusAction {
    CommandSemaWrite(LedgerSemaWriteInput),
    CommandSemaRead(LedgerSemaReadInput),
    ReplyToSignal(RepositoryLedgerSignalOutput),
}

/// The step that follows a decision.
#[derive(Debug, PartialEq, Eq)]
pub enum NextStep {
    SemaWrite(LedgerSemaWriteInput),
    SemaRead(LedgerSemaReadInput),
    Reply(RepositoryLedgerSignalOutput),
}

/// Which of the two contracts a request belongs to.
#[derive(Debug, Clone, Copy, PartialEq, Eq, Structural)]
pub enum RepositoryLedgerSignalTier {
    Ordinary,
    Meta,
}

/// The contract that an operation belongs to.
pub open spec fn input_tier(input: RepositoryLedgerSignalInput) -> RepositoryLedgerSignalTier {
    match input {
        RepositoryLedgerSignalInput::Ordinary(_) => RepositoryLedgerSignalTier::Ordinary,
        RepositoryLedgerSignalInput::Meta(_) => RepositoryLedgerSignalTier::Meta,
    }
}

/// The contract that a reply belongs to.
pub open spec fn output_tier(output: RepositoryLedgerSignalOutput) -> RepositoryLedgerSignalTier {
    match output {
        RepositoryLedgerSignalOutput::Ordinary(_) => RepositoryLedgerSignalTier::Ordinary,
        RepositoryLedgerSignalOutput::Meta(_) => RepositoryLedgerSignalTier::Meta,
    }
}

/// What is said of an ordinary operation that could not be carried out.
pub open spec fn ordinary_failure(
    operation: contract::OperationModel,
) -> contract::RequestUnimplemented {
    contract::RequestUnimplemented {
        operation: contract::operation_kind(operation),
        query: match operation {
            contract::OperationModel::Query(query) => Some(contract::query_kind(query)),
            _ => None,
        },
        reason: UnimplementedReason::StoreUnavailable,
    }
}

/// What is said of a meta operation that could not be carried out.
pub open spec fn meta_failure(
    operation: meta_contract::OperationModel,
) -> meta_contract::RequestUnimplemented {
    meta_contract::RequestUnimplemented {
        operation: meta_contract::operation_kind(operation),
        reason: UnimplementedReason::StoreUnavailable,
    }
}

/// What is said of an ordinary operation that is not known.
pub open spec fn ordinary_unknown_failure() -> contract::RequestUnimplemented {
    contract::RequestUnimplemented {
        operation: contract::OperationKind::Receive,
        query: None,
        reason: UnimplementedReason::StoreUnavailable,
    }
}

/// What is said of a meta operation that is not known.
pub open spec fn meta_unknown_failure() -> meta_contract::RequestUnimplemented {
    meta_contract::RequestUnimplemented {
        operation: meta_contract::OperationKind::Register,
        reason: UnimplementedReason::StoreUnavailable,
    }
}

/// The storage step that an operation needs.
pub open spec fn signal_action(input: RepositoryLedgerSignalInput) -> RepositoryLedgerNexusAction {
    match input {
        RepositoryLedgerSignalInput::Ordinary(operation) => match operation {
            contract::Operation::Receive(notification) => {
                RepositoryLedgerNexusAction::CommandSemaWrite(
                    LedgerSemaWriteInput::RecordHookNotification(notification),
                )
            },
            contract::Operation::Observe(observation) => {
                RepositoryLedgerNexusAction::CommandSemaWrite(
                    LedgerSemaWriteInput::RecordPushObservation(observation),
                )
            },
            contract::Operation::Query(query) => RepositoryLedgerNexusAction::CommandSemaRead(
                LedgerSemaReadInput::ReadQuery(query),
            ),
        },
        RepositoryLedgerSignalInput::Meta(operation) => match operation {
            meta_contract::Operation::Register(registration) => {
                RepositoryLedgerNexusAction::CommandSemaWrite(
                    LedgerSemaWriteInput::RegisterRepository(registration),
                )
            },
            meta_contract::Operation::Retire(retirement) => {
                RepositoryLedgerNexusAction::CommandSemaWrite(
                    LedgerSemaWriteInput::RetireRepository(retirement),
                )
            },
            meta_contract::Operation::SetSpoolDirectory(policy) => {
                RepositoryLedgerNexusAction::CommandSemaWrite(
                    LedgerSemaWriteInput::SetSpoolDirectoryPolicy(policy),
                )
            },
            meta_contract::Operation::SetMirror(policy) => {
                RepositoryLedgerNexusAction::CommandSemaWrite(
                    LedgerSemaWriteInput::SetMirrorPolicy(policy),
                )
            },
        },
    }
}

/// What the nexus remembers of the request it works on.
#[derive(Debug, PartialEq, Eq)]
pub struct RepositoryLedgerNexusEngines {
    pub signal_tier: Option<RepositoryLedgerSignalTier>,
    pub ordinary_failure_reply: Option<contract::RequestUnimplemented>,
    pub meta_failure_reply: Option<meta_contract::RequestUnimplemented>,
    pub last_error: Option<Error>,
}

/// The reply to a request whose storage step failed: in the contract of the
/// request, and naming its operation where that is known.
pub open spec fn failure_output(
    engines: RepositoryLedgerNexusEngines,
) -> RepositoryLedgerSignalOutput {
    if engines.signal_tier == Some(RepositoryLedgerSignalTier::Meta) {
        RepositoryLedgerSignalOutput::Meta(
            meta_contract::Reply::RequestUnimplemented(
                match engines.meta_failure_reply {
                    Some(request) => request,
                    None => meta_unknown_failure(),
                },
            ),
        )
    } else {
        RepositoryLedgerSignalOutput::Ordinary(
            contract::Reply::RequestUnimplemented(
                match engines.ordinary_failure_reply {
                    Some(request) => request,
                    None => ordinary_unknown_failure(),
                },
            ),
        )
    }
}

/// The reply to the outcome of a write.
pub open spec fn write_reply(
    engines: RepositoryLedgerNexusEngines,
    output: LedgerSemaWriteOutput,
) -> RepositoryLedgerSignalOutput {
    match output {
        LedgerSemaWriteOutput::EventRecorded(recorded) => {
            RepositoryLedgerSignalOutput::Ordinary(contract::Reply::EventRecorded(recorded))
        },
        LedgerSemaWriteOutput::Registered(registered) => {
            RepositoryLedgerSignalOutput::Meta(meta_contract::Reply::Registered(registered))
        },
        LedgerSemaWriteOutput::Retired(retired) => {
            RepositoryLedgerSignalOutput::Meta(meta_contract::Reply::Retired(retired))
        },
        LedgerSemaWriteOutput::SpoolDirectoryPolicySet(policy) => {
            RepositoryLedgerSignalOutput::Meta(
                meta_contract::Reply::SpoolDirectoryPolicySet(policy),
            )
        },
        LedgerSemaWriteOutput::MirrorPolicySet(policy) => {
            RepositoryLedgerSignalOutput::Meta(meta_contract::Reply::MirrorPolicySet(policy))
        },
        LedgerSemaWriteOutput::WriteRejected => failure_output(engines),
    }
}

/// The reply to the outcome of a read.
pub open spec fn read_reply(
    engines: RepositoryLedgerNexusEngines,
    output: LedgerSemaReadOutput,
) -> RepositoryLedgerSignalOutput {
    match output {
        LedgerSemaReadOutput::QueryResult(result) => {
            RepositoryLedgerSignalOutput::Ordinary(contract::Reply::QueryResult(result))
        },
        LedgerSemaReadOutput::ReadMiss => failure_output(engines),
    }
}

/// What the nexus remembers once a request arrived.
pub open spec fn engines_for(
    engines: RepositoryLedgerNexusEngines,
    input: RepositoryLedgerSignalInput,
) -> RepositoryLedgerNexusEngines {
    match input {
        RepositoryLedgerSignalInput::Ordinary(operation) => RepositoryLedgerNexusEngines {
            signal_tier: Some(RepositoryLedgerSignalTier::Ordinary),
            ordinary_failure_reply: Some(ordinary_failure(operation@)),
            ..engines
        },
        RepositoryLedgerSignalInput::Meta(operation) => RepositoryLedgerNexusEngines {
            signal_tier: Some(RepositoryLedgerSignalTier::Meta),
            meta_failure_reply: Some(meta_failure(operation@)),
            ..engines
        },
    }
}

/// The step that follows a decision.
pub open spec fn step_of(action: RepositoryLedgerNexusAction) -> NextStep {
    match action {
        RepositoryLedgerNexusAction::CommandSemaWrite(input) => NextStep::SemaWrite(input),
        RepositoryLedgerNexusAction::CommandSemaRead(input) => NextStep::SemaRead(input),
        RepositoryLedgerNexusAction::ReplyToSignal(output) => NextStep::Reply(output),
    }
}

/// A request whose storage step fails is refused in its own contract, naming the
/// operation that it asked for.
pub proof fn lemma_failure_names_operation(
    engines: RepositoryLedgerNexusEngines,
    input: RepositoryLedgerSignalInput,
)
    ensures
        output_tier(failure_output(engines_for(engines, input))) == input_tier(input),
        match input {
            RepositoryLedgerSignalInput::Ordinary(operation) => failure_output(
                engines_for(engines, input),
            ) == RepositoryLedgerSignalOutput::Ordinary(
                contract::Reply::RequestUnimplemented(ordinary_failure(operation@)),
            ),
            RepositoryLedgerSignalInput::Meta(operation) => failure_output(
                engines_for(engines, input),
            ) == RepositoryLedgerSignalOutput::Meta(
                meta_contract::Reply::RequestUnimplemented(meta_failure(operation@)),
            ),
        },
{
}

/// Every operation leads to the storage step of its own kind, with what it carries.
pub proof fn lemma_operation_commanded(input: RepositoryLedgerSignalInput)
    ensures
        match input {
            RepositoryLedgerSignalInput::Ordinary(contract::Operation::Receive(given)) => {
                signal_action(input) == RepositoryLedgerNexusAction::CommandSemaWrite(
                    LedgerSemaWriteInput::RecordHookNotification(given),
                )
            },
            RepositoryLedgerSignalInput::Ordinary(contract::Operation::Observe(given)) => {
                signal_action(input) == RepositoryLedgerNexusAction::CommandSemaWrite(
                    LedgerSemaWriteInput::RecordPushObservation(given),
                )
            },
            RepositoryLedgerSignalInput::Ordinary(contract::Operation::Query(given)) => {
                signal_action(input) == RepositoryLedgerNexusAction::CommandSemaRead(
                    LedgerSemaReadInput::ReadQuery(given),
                )
            },
            RepositoryLedgerSignalInput::Meta(meta_contract::Operation::Register(given)) => {
                signal_action(input) == RepositoryLedgerNexusAction::CommandSemaWrite(
                    LedgerSemaWriteInput::RegisterRepository(given),
                )
            },
            RepositoryLedgerSignalInput::Meta(meta_contract::Operation::Retire(given)) => {
                signal_action(input) == RepositoryLedgerNexusAction::CommandSemaWrite(
                    LedgerSemaWriteInput::RetireRepository(given),
                )
            },
            RepositoryLedgerSignalInput::Meta(meta_contract::Operation::SetSpoolDirectory(given)) => {
                signal_action(input) == RepositoryLedgerNexusAction::CommandSemaWrite(
                    LedgerSemaWriteInput::SetSpoolDirectoryPolicy(given),
                )
            },
            RepositoryLedgerSignalInput::Meta(meta_contract::Operation::SetMirror(given)) => {
                signal_action(input) == RepositoryLedgerNexusAction::CommandSemaWrite(
                    LedgerSemaWriteInput::SetMirrorPolicy(given),
                )
            },
        },
{
}

/// The refusal of an operation says which operation it was, and of a query which
/// query, and that the store was not available.
pub proof fn lemma_refusal_says_what(
    ordinary: contract::OperationModel,
    meta: meta_contract::OperationModel,
)
    ensures
        ordinary_failure(ordinary).reason == UnimplementedReason::StoreUnavailable,
        ordinary is Receive <==> ordinary_failure(ordinary).operation is Receive,
        ordinary is Observe <==> ordinary_failure(ordinary).operation is Observe,
        ordinary is Query <==> ordinary_failure(ordinary).operation is Query,
        ordinary is Query <==> ordinary_failure(ordinary).query is Some,
        ordinary matches contract::OperationModel::Query(query) ==> {
            let named = ordinary_failure(ordinary).query->0;
            &&& query is Events <==> named is Events
            &&& query is RecentRepositories <==> named is RecentRepositories
            &&& query is ChangedFiles <==> named is ChangedFiles
            &&& query is CommitMessages <==> named is CommitMessages
            &&& query is Catalog <==> named is Catalog
        },
        meta_failure(meta).reason == UnimplementedReason::StoreUnavailable,
        meta is Register <==> meta_failure(meta).operation is Register,
        meta is Retire <==> meta_failure(meta).operation is Retire,
        meta is SetSpoolDirectory <==> meta_failure(meta).operation is SetSpoolDirectory,
        meta is SetMirror <==> meta_failure(meta).operation is SetMirror,
{
}

/// The outcome of a storage step is replied to with what it says, in the contract it
/// belongs to; a failed step is replied to with the refusal that was prepared for the
/// request, in the contract of the request, and one without a request in the
/// ordinary contract, as the refusal of a notification.
pub proof fn lemma_outcome_replied(
    engines: RepositoryLedgerNexusEngines,
    written: LedgerSemaWriteOutput,
    read: LedgerSemaReadOutput,
)
    ensures
        match written {
            LedgerSemaWriteOutput::EventRecorded(said) => write_reply(engines, written)
                == RepositoryLedgerSignalOutput::Ordinary(contract::Reply::EventRecorded(said)),
            LedgerSemaWriteOutput::Registered(said) => write_reply(engines, written)
                == RepositoryLedgerSignalOutput::Meta(meta_contract::Reply::Registered(said)),
            LedgerSemaWriteOutput::Retired(said) => write_reply(engines, written)
                == RepositoryLedgerSignalOutput::Meta(meta_contract::Reply::Retired(said)),
            LedgerSemaWriteOutput::SpoolDirectoryPolicySet(said) => write_reply(engines, written)
                == RepositoryLedgerSignalOutput::Meta(
                meta_contract::Reply::SpoolDirectoryPolicySet(said),
            ),
            LedgerSemaWriteOutput::MirrorPolicySet(said) => write_reply(engines, written)
                == RepositoryLedgerSignalOutput::Meta(meta_contract::Reply::MirrorPolicySet(said)),
            LedgerSemaWriteOutput::WriteRejected => write_reply(engines, written)
                == failure_output(engines),
        },
        match read {
            LedgerSemaReadOutput::QueryResult(said) => read_reply(engines, read)
                == RepositoryLedgerSignalOutput::Ordinary(contract::Reply::QueryResult(said)),
            LedgerSemaReadOutput::ReadMiss => read_reply(engines, read) == failure_output(engines),
        },
        engines.signal_tier == Some(RepositoryLedgerSignalTier::Meta) ==> {
            &&& failure_output(engines) matches RepositoryLedgerSignalOutput::Meta(
                meta_contract::Reply::RequestUnimplemented(refusal),
            )
            &&& engines.meta_failure_reply is Some ==> engines.meta_failure_reply == Some(refusal)
            &&& engines.meta_failure_reply is None ==> refusal.operation is Register
        },
        engines.signal_tier != Some(RepositoryLedgerSignalTier::Meta) ==> {
            &&& failure_output(engines) matches RepositoryLedgerSignalOutput::Ordinary(
                contract::Reply::RequestUnimplemented(refusal),
            )
            &&& engines.ordinary_failure_reply is Some ==> engines.ordinary_failure_reply == Some(
                refusal,
            )
            &&& engines.ordinary_failure_reply is None ==> refusal.operation is Receive
                && refusal.query is None
        },
{
}

/// What the nexus remembers of a request is the contract that it came in and its
/// refusal in that contract; what was remembered before stays otherwise.
pub proof fn lemma_request_remembered(
    engines: RepositoryLedgerNexusEngines,
    input: RepositoryLedgerSignalInput,
)
    ensures
        engines_for(engines, input).last_error == engines.last_error,
        input matches RepositoryLedgerSignalInput::Ordinary(operation) ==> {
            let after = engines_for(engines, input);
            &&& after.signal_tier == Some(RepositoryLedgerSignalTier::Ordinary)
            &&& after.ordinary_failure_reply == Some(ordinary_failure(operation@))
            &&& after.meta_failure_reply == engines.meta_failure_reply
        },
        input matches RepositoryLedgerSignalInput::Meta(operation) ==> {
            let after = engines_for(engines, input);
            &&& after.signal_tier == Some(RepositoryLedgerSignalTier::Meta)
            &&& after.meta_failure_reply == Some(meta_failure(operation@))
            &&& after.ordinary_failure_reply == engines.ordinary_failure_reply
        },
{
}

impl RepositoryLedgerNexusAction {
    pub fn into_next_step(self) -> (step: NextStep)
        ensures
            step == step_of(self),
    {
        match self {
            RepositoryLedgerNexusAction::CommandSemaWrite(input) => NextStep::SemaWrite(input),
            RepositoryLedgerNexusAction::CommandSemaRead(input) => NextStep::SemaRead(input),
            RepositoryLedgerNexusAction::ReplyToSignal(output) => NextStep::Reply(output),
        }
    }
}

impl RepositoryLedgerNexusEngines {
    /// The nexus before a request arrived.
    pub fn new() -> (engines: Self)
        ensures
            engines == (RepositoryLedgerNexusEngines {
                signal_tier: None,
                ordinary_failure_reply: None,
                meta_failure_reply: None,
                last_error: None,
            }),
    {
        RepositoryLedgerNexusEngines {
            signal_tier: None,
            ordinary_failure_reply: None,
            meta_failure_reply: None,
            last_error: None,
        }
    }

    /// Hands over the error of the storage step, if it failed.
    pub fn take_last_error(&mut self) -> (error: Option<Error>)
        ensures
            error == old(self).last_error,
            *final(self) == (RepositoryLedgerNexusEngines { last_error: None, ..*old(self) }),
    {
        self.last_error.take()
    }

    /// Decides on a request: the storage step that it needs.
    pub fn action_for_signal_input(&mut self, input: RepositoryLedgerSignalInput) -> (action:
        RepositoryLedgerNexusAction)
        ensures
            action == signal_action(input),
            *final(self) == engines_for(*old(self), input),
    {
        match input {
            RepositoryLedgerSignalInput::Ordinary(operation) => {
                self.signal_tier = Some(RepositoryLedgerSignalTier::Ordinary);
                self.ordinary_failure_reply = Some(Self::ordinary_unimplemented_reply(&operation));
                match operation {
                    contract::Operation::Receive(notification) => {
                        RepositoryLedgerNexusAction::CommandSemaWrite(
                            LedgerSemaWriteInput::RecordHookNotification(notification),
                        )
                    },
                    contract::Operation::Observe(observation) => {
                        RepositoryLedgerNexusAction::CommandSemaWrite(
                            LedgerSemaWriteInput::RecordPushObservation(observation),
                        )
                    },
                    contract::Operation::Query(query) => {
                        RepositoryLedgerNexusAction::CommandSemaRead(
                            LedgerSemaReadInput::ReadQuery(query),
                        )
                    },
                }
            },
            RepositoryLedgerSignalInput::Meta(operation) => {
                self.signal_tier = Some(RepositoryLedgerSignalTier::Meta);
                self.meta_failure_reply = Some(Self::meta_unimplemented_reply(&operation));
                match operation {
                    meta_contract::Operation::Register(registration) => {
                        RepositoryLedgerNexusAction::CommandSemaWrite(
                            LedgerSemaWriteInput::RegisterRepository(registration),
                        )
                    },
                    meta_contract::Operation::Retire(retirement) => {
                        RepositoryLedgerNexusAction::CommandSemaWrite(
                            LedgerSemaWriteInput::RetireRepository(retirement),
                        )
                    },
                    meta_contract::Operation::SetSpoolDirectory(policy) => {
                        RepositoryLedgerNexusAction::CommandSemaWrite(
                            LedgerSemaWriteInput::SetSpoolDirectoryPolicy(policy),
                        )
                    },
                    meta_contract::Operation::SetMirror(policy) => {
                        RepositoryLedgerNexusAction::CommandSemaWrite(
                            LedgerSemaWriteInput::SetMirrorPolicy(policy),
                        )
                    },
                }
            },
        }
    }

    /// Decides on the outcome of a write: the reply to it.
    pub fn action_for_sema_write_output(&self, output: LedgerSemaWriteOutput) -> (action:
        RepositoryLedgerNexusAction)
        ensures
            action == RepositoryLedgerNexusAction::ReplyToSignal(write_reply(*self, output)),
    {
        let signal_output = match output {
            LedgerSemaWriteOutput::EventRecorded(recorded) => {
                RepositoryLedgerSignalOutput::Ordinary(contract::Reply::EventRecorded(recorded))
            },
            LedgerSemaWriteOutput::Registered(registered) => {
                RepositoryLedgerSignalOutput::Meta(meta_contract::Reply::Registered(registered))
            },
            LedgerSemaWriteOutput::Retired(retired) => {
                RepositoryLedgerSignalOutput::Meta(meta_contract::Reply::Retired(retired))
            },
            LedgerSemaWriteOutput::SpoolDirectoryPolicySet(policy) => {
                RepositoryLedgerSignalOutput::Meta(
                    meta_contract::Reply::SpoolDirectoryPolicySet(policy),
                )
            },
            LedgerSemaWriteOutput::MirrorPolicySet(policy) => {
                RepositoryLedgerSignalOutput::Meta(meta_contract::Reply::MirrorPolicySet(policy))
            },
            LedgerSemaWriteOutput::WriteRejected => self.failure_signal_output(),
        };
        RepositoryLedgerNexusAction::ReplyToSignal(signal_output)
    }

    /// Decides on the outcome of a read: the reply to it.
    pub fn action_for_sema_read_output(&self, output: LedgerSemaReadOutput) -> (action:
        RepositoryLedgerNexusAction)
        ensures
            action == RepositoryLedgerNexusAction::ReplyToSignal(read_reply(*self, output)),
    {
        let signal_output = match output {
            LedgerSemaReadOutput::QueryResult(result) => {
                RepositoryLedgerSignalOutput::Ordinary(contract::Reply::QueryResult(result))
            },
            LedgerSemaReadOutput::ReadMiss => self.failure_signal_output(),
        };
        RepositoryLedgerNexusAction::ReplyToSignal(signal_output)
    }

    /// The reply to a request whose storage step failed.
    pub fn failure_signal_output(&self) -> (output: RepositoryLedgerSignalOutput)
        ensures
            output == failure_output(*self),
    {
        match self.signal_tier {
            Some(RepositoryLedgerSignalTier::Meta) => RepositoryLedgerSignalOutput::Meta(
                meta_contract::Reply::RequestUnimplemented(
                    match self.meta_failure_reply {
                        Some(request) => request,
                        None => Self::meta_unknown_failure_reply(),
                    },
                ),
            ),
            Some(RepositoryLedgerSignalTier::Ordinary) | None => {
                RepositoryLedgerSignalOutput::Ordinary(
                    contract::Reply::RequestUnimplemented(
                        match self.ordinary_failure_reply {
                            Some(request) => request,
                            None => Self::ordinary_unknown_failure_reply(),
                        },
                    ),
                )
            },
        }
    }

    pub fn ordinary_unimplemented_reply(operation: &contract::Operation) -> (request:
        contract::RequestUnimplemented)
        ensures
            request == ordinary_failure(operation@),
    {
        let query = match operation {
            contract::Operation::Query(query) => Some(query.kind()),
            contract::Operation::Receive(_) | contract::Operation::Observe(_) => None,
        };
        contract::RequestUnimplemented {
            operation: operation.operation_kind(),
            query,
            reason: UnimplementedReason::StoreUnavailable,
        }
    }

    pub fn ordinary_unknown_failure_reply() -> (request: contract::RequestUnimplemented)
        ensures
            request == ordinary_unknown_failure(),
    {
        contract::RequestUnimplemented {
            operation: contract::OperationKind::Receive,
            query: None,
            reason: UnimplementedReason::StoreUnavailable,
        }
    }

    pub fn meta_unimplemented_reply(operation: &meta_contract::Operation) -> (request:
        meta_contract::RequestUnimplemented)
        ensures
            request == meta_failure(operation@),
    {
        meta_contract::RequestUnimplemented {
            operation: operation.operation_kind(),
            reason: UnimplementedReason::StoreUnavailable,
        }
    }

    pub fn meta_unknown_failure_reply() -> (request: meta_contract::RequestUnimplemented)
        ensures
            request == meta_unknown_failure(),
    {
        meta_contract::RequestUnimplemented {
            operation: meta_contract::OperationKind::Register,
            reason: UnimplementedReason::StoreUnavailable,
        }
    }

    /// Decides what follows from an arrived request or a completed storage step.
    pub fn decide_next_step(&mut self, work: RepositoryLedgerNexusWork) -> (step: NextStep)
        ensures
            match work {
                RepositoryLedgerNexusWork::SignalArrived(input) => {
                    &&& step == step_of(signal_action(input))
                    &&& *final(self) == engines_for(*old(self), input)
                },
                RepositoryLedgerNexusWork::SemaWriteCompleted(output) => {
                    &&& step == NextStep::Reply(write_reply(*old(self), output))
                    &&& *final(self) == *old(self)
                },
                RepositoryLedgerNexusWork::SemaReadCompleted(output) => {
                    &&& step == NextStep::Reply(read_reply(*old(self), output))
                    &&& *final(self) == *old(self)
                },
            },
    {
        let action = match work {
            RepositoryLedgerNexusWork::SignalArrived(input) => self.action_for_signal_input(input),
            RepositoryLedgerNexusWork::SemaWriteCompleted(output) => {
                self.action_for_sema_write_output(output)
            },
            RepositoryLedgerNexusWork::SemaReadCompleted(output) => {
                self.action_for_sema_read_output(output)
            },
        };
        action.into_next_step()
    }
}

} // verus!
