//! The ledger as a value: what it holds, the writes that change it, and what each
//! operation does to it.
use vstd::prelude::*;

use crate::contract::{
    CommitObservationModel, EventModel, EventSequence, Name, PushObservationModel,
    ReceiveHookNotificationModel, RegistrationModel,
};
use crate::meta_contract::{MirrorPolicyModel, SpoolDirectoryPolicyModel};
use crate::records;
use crate::records::{
    EngineRecord, StoredCommit, StoredCommitModel, StoredEvent, StoredMirrorPolicy,
    StoredRegistration, StoredSpoolDirectoryPolicy,
};
use crate::table;
use crate::text;

verus! {

/// Everything the ledger holds: one sequence of records per table.
#[verifier::ext_equal]
pub struct LedgerState {
    pub events: Seq<EventModel>,
    pub commits: Seq<StoredCommitModel>,
    pub registrations: Seq<RegistrationModel>,
    pub spool_directory_policy: Seq<SpoolDirectoryPolicyModel>,
    pub mirror_policies: Seq<MirrorPolicyModel>,
}

impl LedgerState {
    /// Whether every table is in the order of its keys, no key twice.
    pub open spec fn well_formed(self) -> bool {
        &&& table::keyed::<StoredEvent>(self.events)
        &&& table::keyed::<StoredCommit>(self.commits)
        &&& table::keyed::<StoredRegistration>(self.registrations)
        &&& table::keyed::<StoredSpoolDirectoryPolicy>(self.spool_directory_policy)
        &&& table::keyed::<StoredMirrorPolicy>(self.mirror_policies)
    }
}

/// One change of one record, as the record engine has to make it.
#[derive(Debug, PartialEq, Eq)]
pub enum StoreWrite {
    AssertEvent(StoredEvent),
    RetractEvent(EventSequence),
    AssertCommit(StoredCommit),
    AssertRegistration(StoredRegistration),
    MutateRegistration(StoredRegistration),
    RetractRegistration(Name),
    AssertSpoolDirectoryPolicy(StoredSpoolDirectoryPolicy),
    MutateSpoolDirectoryPolicy(StoredSpoolDirectoryPolicy),
    AssertMirrorPolicy(StoredMirrorPolicy),
    MutateMirrorPolicy(StoredMirrorPolicy),
}

/// The model of a [`StoreWrite`].
#[verifier::ext_equal]
pub enum StoreWriteModel {
    AssertEvent(EventModel),
    RetractEvent(u64),
    AssertCommit(StoredCommitModel),
    AssertRegistration(RegistrationModel),
    MutateRegistration(RegistrationModel),
    RetractRegistration(Seq<char>),
    AssertSpoolDirectoryPolicy(SpoolDirectoryPolicyModel),
    MutateSpoolDirectoryPolicy(SpoolDirectoryPolicyModel),
    AssertMirrorPolicy(MirrorPolicyModel),
    MutateMirrorPolicy(MirrorPolicyModel),
}

impl View for StoreWrite {
    type V = StoreWriteModel;

    open spec fn view(&self) -> StoreWriteModel {
        match self {
            StoreWrite::AssertEvent(record) => StoreWriteModel::AssertEvent(record@),
            StoreWrite::RetractEvent(sequence) => StoreWriteModel::RetractEvent(sequence@),
            StoreWrite::AssertCommit(record) => StoreWriteModel::AssertCommit(record@),
            StoreWrite::AssertRegistration(record) => StoreWriteModel::AssertRegistration(record@),
            StoreWrite::MutateRegistration(record) => StoreWriteModel::MutateRegistration(record@),
            StoreWrite::RetractRegistration(name) => StoreWriteModel::RetractRegistration(name@),
            StoreWrite::AssertSpoolDirectoryPolicy(record) => {
                StoreWriteModel::AssertSpoolDirectoryPolicy(record@)
            },
            StoreWrite::MutateSpoolDirectoryPolicy(record) => {
                StoreWriteModel::MutateSpoolDirectoryPolicy(record@)
            },
            StoreWrite::AssertMirrorPolicy(record) => StoreWriteModel::AssertMirrorPolicy(record@),
            StoreWrite::MutateMirrorPolicy(record) => StoreWriteModel::MutateMirrorPolicy(record@),
        }
    }
}

/// Whether a write can be made: an assertion needs a fresh key, a change or a
/// retraction one that is taken.
pub open spec fn applicable(state: LedgerState, write: StoreWriteModel) -> bool {
    match write {
        StoreWriteModel::AssertEvent(record) => !table::holds::<StoredEvent>(
            state.events,
            StoredEvent::key_of(record),
        ),
        StoreWriteModel::RetractEvent(sequence) => table::holds::<StoredEvent>(
            state.events,
            records::event_key(sequence),
        ),
        StoreWriteModel::AssertCommit(record) => !table::holds::<StoredCommit>(
            state.commits,
            StoredCommit::key_of(record),
        ),
        StoreWriteModel::AssertRegistration(record) => !table::holds::<StoredRegistration>(
            state.registrations,
            StoredRegistration::key_of(record),
        ),
        StoreWriteModel::MutateRegistration(record) => table::holds::<StoredRegistration>(
            state.registrations,
            StoredRegistration::key_of(record),
        ),
        StoreWriteModel::RetractRegistration(name) => table::holds::<StoredRegistration>(
            state.registrations,
            name,
        ),
        StoreWriteModel::AssertSpoolDirectoryPolicy(record) => !table::holds::<
            StoredSpoolDirectoryPolicy,
        >(state.spool_directory_policy, StoredSpoolDirectoryPolicy::key_of(record)),
        StoreWriteModel::MutateSpoolDirectoryPolicy(record) => table::holds::<
            StoredSpoolDirectoryPolicy,
        >(state.spool_directory_policy, StoredSpoolDirectoryPolicy::key_of(record)),
        StoreWriteModel::AssertMirrorPolicy(record) => !table::holds::<StoredMirrorPolicy>(
            state.mirror_policies,
            StoredMirrorPolicy::key_of(record),
        ),
        StoreWriteModel::MutateMirrorPolicy(record) => table::holds::<StoredMirrorPolicy>(
            state.mirror_policies,
            StoredMirrorPolicy::key_of(record),
        ),
    }
}

/// The ledger after one write.
pub open spec fn applied(state: LedgerState, write: StoreWriteModel) -> LedgerState {
    match write {
        StoreWriteModel::AssertEvent(record) => LedgerState {
            events: table::asserted::<StoredEvent>(state.events, record),
            ..state
        },
        StoreWriteModel::RetractEvent(sequence) => LedgerState {
            events: table::retracted::<StoredEvent>(state.events, records::event_key(sequence)),
            ..state
        },
        StoreWriteModel::AssertCommit(record) => LedgerState {
            commits: table::asserted::<StoredCommit>(state.commits, record),
            ..state
        },
        StoreWriteModel::AssertRegistration(record) => LedgerState {
            registrations: table::asserted::<StoredRegistration>(state.registrations, record),
            ..state
        },
        StoreWriteModel::MutateRegistration(record) => LedgerState {
            registrations: table::mutated::<StoredRegistration>(state.registrations, record),
            ..state
        },
        StoreWriteModel::RetractRegistration(name) => LedgerState {
            registrations: table::retracted::<StoredRegistration>(state.registrations, name),
            ..state
        },
        StoreWriteModel::AssertSpoolDirectoryPolicy(record) => LedgerState {
            spool_directory_policy: table::asserted::<StoredSpoolDirectoryPolicy>(
                state.spool_directory_policy,
                record,
            ),
            ..state
        },
        StoreWriteModel::MutateSpoolDirectoryPolicy(record) => LedgerState {
            spool_directory_policy: table::mutated::<StoredSpoolDirectoryPolicy>(
                state.spool_directory_policy,
                record,
            ),
            ..state
        },
        StoreWriteModel::AssertMirrorPolicy(record) => LedgerState {
            mirror_policies: table::asserted::<StoredMirrorPolicy>(state.mirror_policies, record),
            ..state
        },
        StoreWriteModel::MutateMirrorPolicy(record) => LedgerState {
            mirror_policies: table::mutated::<StoredMirrorPolicy>(state.mirror_policies, record),
            ..state
        },
    }
}

/// The ledger after some writes, made one after the other.
pub open spec fn replayed(state: LedgerState, writes: Seq<StoreWriteModel>) -> LedgerState
    decreases writes.len(),
{
    if writes.len() == 0 {
        state
    } else {
        applied(replayed(state, writes.drop_last()), writes.last())
    }
}

/// Whether some writes can be made one after the other.
pub open spec fn replayable(state: LedgerState, writes: Seq<StoreWriteModel>) -> bool
    decreases writes.len(),
{
    writes.len() > 0 ==> {
        &&& replayable(state, writes.drop_last())
        &&& applicable(replayed(state, writes.drop_last()), writes.last())
    }
}

/// Writes that can be made keep every table in the order of its keys.
pub proof fn lemma_replay_well_formed(state: LedgerState, writes: Seq<StoreWriteModel>)
    requires
        state.well_formed(),
        replayable(state, writes),
    ensures
        replayed(state, writes).well_formed(),
    decreases writes.len(),
{
    if writes.len() > 0 {
        let before = replayed(state, writes.drop_last());
        lemma_replay_well_formed(state, writes.drop_last());
        match writes.last() {
            StoreWriteModel::AssertEvent(record) => {
                table::lemma_asserted::<StoredEvent>(before.events, record)
            },
            StoreWriteModel::RetractEvent(sequence) => table::lemma_retracted::<StoredEvent>(
                before.events,
                records::event_key(sequence),
            ),
            StoreWriteModel::AssertCommit(record) => {
                table::lemma_asserted::<StoredCommit>(before.commits, record)
            },
            StoreWriteModel::AssertRegistration(record) => {
                table::lemma_asserted::<StoredRegistration>(before.registrations, record)
            },
            StoreWriteModel::MutateRegistration(record) => {
                table::lemma_mutated::<StoredRegistration>(before.registrations, record)
            },
            StoreWriteModel::RetractRegistration(name) => {
                table::lemma_retracted::<StoredRegistration>(before.registrations, name)
            },
            StoreWriteModel::AssertSpoolDirectoryPolicy(record) => {
                table::lemma_asserted::<StoredSpoolDirectoryPolicy>(
                    before.spool_directory_policy,
                    record,
                )
            },
            StoreWriteModel::MutateSpoolDirectoryPolicy(record) => {
                table::lemma_mutated::<StoredSpoolDirectoryPolicy>(
                    before.spool_directory_policy,
                    record,
                )
            },
            StoreWriteModel::AssertMirrorPolicy(record) => {
                table::lemma_asserted::<StoredMirrorPolicy>(before.mirror_policies, record)
            },
            StoreWriteModel::MutateMirrorPolicy(record) => {
                table::lemma_mutated::<StoredMirrorPolicy>(before.mirror_policies, record)
            },
        }
    }
}

/// Making some writes and then some more is making them all.
pub proof fn lemma_replay_joined(
    state: LedgerState,
    first: Seq<StoreWriteModel>,
    second: Seq<StoreWriteModel>,
)
    ensures
        replayed(state, first + second) == replayed(replayed(state, first), second),
        replayable(state, first + second) <==> (replayable(state, first) && replayable(
            replayed(state, first),
            second,
        )),
    decreases second.len(),
{
    let all = first + second;
    if second.len() == 0 {
        assert(all =~= first);
    } else {
        assert(all.drop_last() =~= first + second.drop_last());
        lemma_replay_joined(state, first, second.drop_last());
    }
}

/// The highest sequence number that was given out, or zero.
pub open spec fn last_sequence(events: Seq<EventModel>) -> u64 {
    if events.len() == 0 {
        0
    } else {
        events.last().sequence
    }
}

/// The sequence number of the next event.
pub open spec fn next_sequence(events: Seq<EventModel>) -> u64 {
    (last_sequence(events) + 1) as u64
}

/// Whether a sequence number is left for another event.
pub open spec fn has_room(events: Seq<EventModel>) -> bool {
    last_sequence(events) < u64::MAX
}

/// Events stand in the order of their sequence numbers, no number twice, and the
/// last one has the highest.
pub proof fn lemma_events_ascend(events: Seq<EventModel>)
    requires
        table::keyed::<StoredEvent>(events),
    ensures
        forall|i: int, j: int|
            0 <= i < j < events.len() ==> (#[trigger] events[i]).sequence < (
            #[trigger] events[j]).sequence,
        forall|i: int| 0 <= i < events.len() ==> (#[trigger] events[i]).sequence <= last_sequence(
            events,
        ),
{
    assert forall|i: int, j: int| 0 <= i < j < events.len() implies (#[trigger] events[i]).sequence
        < (#[trigger] events[j]).sequence by {
        assert(text::text_precedes(
            StoredEvent::key_of(events[i]),
            StoredEvent::key_of(events[j]),
        ));
        records::lemma_event_key_order(events[i].sequence, events[j].sequence);
    }
    assert forall|i: int| 0 <= i < events.len() implies (#[trigger] events[i]).sequence
        <= last_sequence(events) by {
        if i < events.len() - 1 {
            assert(events[i].sequence < events[events.len() - 1].sequence);
        }
    }
}

/// The event that records a notification.
pub open spec fn next_event(
    state: LedgerState,
    notification: ReceiveHookNotificationModel,
) -> EventModel {
    EventModel { sequence: next_sequence(state.events), notification }
}

/// The ledger after a notification was recorded: its event comes last.
pub open spec fn notified(
    state: LedgerState,
    notification: ReceiveHookNotificationModel,
) -> LedgerState {
    LedgerState { events: state.events.push(next_event(state, notification)), ..state }
}

/// The write that records a notification.
pub open spec fn notification_writes(
    state: LedgerState,
    notification: ReceiveHookNotificationModel,
) -> Seq<StoreWriteModel> {
    seq![StoreWriteModel::AssertEvent(next_event(state, notification))]
}

proof fn lemma_next_event_last(events: Seq<EventModel>, event: EventModel)
    requires
        table::keyed::<StoredEvent>(events),
        has_room(events),
        event.sequence == next_sequence(events),
    ensures
        forall|i: int|
            0 <= i < events.len() ==> text::text_precedes(
                StoredEvent::key_of(#[trigger] events[i]),
                StoredEvent::key_of(event),
            ),
{
    lemma_events_ascend(events);
    assert forall|i: int| 0 <= i < events.len() implies text::text_precedes(
        StoredEvent::key_of(#[trigger] events[i]),
        StoredEvent::key_of(event),
    ) by {
        records::lemma_event_key_order(events[i].sequence, event.sequence);
    }
}

/// A new event takes a number above every earlier one, and its write can be made
/// and puts it last.
pub proof fn lemma_notified(state: LedgerState, notification: ReceiveHookNotificationModel)
    requires
        state.well_formed(),
        has_room(state.events),
    ensures
        notified(state, notification).well_formed(),
        replayable(state, notification_writes(state, notification)),
        replayed(state, notification_writes(state, notification)) == notified(state, notification),
        last_sequence(notified(state, notification).events) == next_sequence(state.events),
        forall|i: int|
            0 <= i < state.events.len() ==> (#[trigger] state.events[i]).sequence < next_sequence(
                state.events,
            ),
{
    let event = next_event(state, notification);
    let writes = notification_writes(state, notification);
    lemma_events_ascend(state.events);
    lemma_next_event_last(state.events, event);
    table::lemma_asserted_last::<StoredEvent>(state.events, event);
    table::lemma_asserted::<StoredEvent>(state.events, event);
    assert(writes.drop_last() =~= Seq::empty());
    reveal_with_fuel(replayed, 2);
    reveal_with_fuel(replayable, 2);
}

/// A notification is recorded whole: one event is added at the end, it carries the
/// notification as it was given, every ref update in its place, and its number is
/// one for the first event and otherwise follows the number of the last. Nothing
/// else changes, and the one write that is left carries the same event.
pub proof fn lemma_notification_kept_whole(
    state: LedgerState,
    notification: ReceiveHookNotificationModel,
)
    requires
        state.well_formed(),
        has_room(state.events),
    ensures
        ({
            let after = notified(state, notification);
            let writes = notification_writes(state, notification);
            &&& after.events.len() == state.events.len() + 1
            &&& after.events.drop_last() == state.events
            &&& after.events.last().notification == notification
            &&& after.events.last().notification.ref_updates.len()
                == notification.ref_updates.len()
            &&& forall|i: int|
                0 <= i < notification.ref_updates.len()
                    ==> #[trigger] after.events.last().notification.ref_updates[i]
                    == notification.ref_updates[i]
            &&& state.events.len() == 0 ==> after.events.last().sequence == 1
            &&& state.events.len() > 0 ==> after.events.last().sequence
                == state.events.last().sequence + 1
            &&& forall|i: int|
                0 <= i < state.events.len() ==> (#[trigger] state.events[i]).sequence
                    < after.events.last().sequence
            &&& after.commits == state.commits
            &&& after.registrations == state.registrations
            &&& after.spool_directory_policy == state.spool_directory_policy
            &&& after.mirror_policies == state.mirror_policies
            &&& writes == seq![StoreWriteModel::AssertEvent(after.events.last())]
        }),
{
    lemma_events_ascend(state.events);
    assert(notified(state, notification).events.drop_last() =~= state.events);
}

/// A commit of a push, as it is stored.
pub open spec fn observed_commit(
    observation: PushObservationModel,
    sequence: u64,
    commit: CommitObservationModel,
) -> StoredCommitModel {
    StoredCommitModel {
        repository_name: observation.notification.repository_name,
        received_at: observation.notification.received_at,
        sequence,
        commit,
    }
}

/// The commits of a push, as they are stored.
pub open spec fn observed_commits(
    observation: PushObservationModel,
    sequence: u64,
) -> Seq<StoredCommitModel> {
    observation.commits.map_values(
        |commit: CommitObservationModel| observed_commit(observation, sequence, commit),
    )
}

/// How many commits of a push are stored before one meets a key that is taken.
pub open spec fn admitted_commits(state: LedgerState, observation: PushObservationModel) -> nat {
    table::admitted::<StoredCommit>(
        state.commits,
        observed_commits(observation, next_sequence(state.events)),
    )
}

/// The ledger after a push was recorded: its event, and those commits that were
/// admitted.
pub open spec fn observed(state: LedgerState, observation: PushObservationModel) -> LedgerState {
    let commits = observed_commits(observation, next_sequence(state.events));
    LedgerState {
        commits: table::asserted_all::<StoredCommit>(
            state.commits,
            commits.take(admitted_commits(state, observation) as int),
        ),
        ..notified(state, observation.notification)
    }
}

/// The writes that store commits.
pub open spec fn commit_writes(commits: Seq<StoredCommitModel>) -> Seq<StoreWriteModel> {
    commits.map_values(|commit: StoredCommitModel| StoreWriteModel::AssertCommit(commit))
}

/// The writes that record a push.
pub open spec fn observation_writes(
    state: LedgerState,
    observation: PushObservationModel,
) -> Seq<StoreWriteModel> {
    notification_writes(state, observation.notification) + commit_writes(
        observed_commits(observation, next_sequence(state.events)).take(
            admitted_commits(state, observation) as int,
        ),
    )
}

proof fn lemma_commit_writes(state: LedgerState, commits: Seq<StoredCommitModel>)
    requires
        table::admitted::<StoredCommit>(state.commits, commits) == commits.len(),
    ensures
        replayable(state, commit_writes(commits)),
        replayed(state, commit_writes(commits)) == (LedgerState {
            commits: table::asserted_all::<StoredCommit>(state.commits, commits),
            ..state
        }),
    decreases commits.len(),
{
    let writes = commit_writes(commits);
    if commits.len() > 0 {
        let earlier = commits.drop_last();
        table::lemma_admitted::<StoredCommit>(state.commits, earlier, earlier.len() as int);
        lemma_commit_writes(state, earlier);
        assert(writes.drop_last() =~= commit_writes(earlier));
        assert(writes.last() == StoreWriteModel::AssertCommit(commits.last()));
    }
}

proof fn lemma_admitted_prefix(records: Seq<StoredCommitModel>, added: Seq<StoredCommitModel>)
    ensures
        ({
            let count = table::admitted::<StoredCommit>(records, added);
            &&& count <= added.len()
            &&& table::admitted::<StoredCommit>(records, added.take(count as int)) == count
        }),
{
    table::lemma_admitted_prefix::<StoredCommit>(records, added);
}

/// The writes that record a push can be made, and lead to the ledger with the
/// push recorded.
pub proof fn lemma_observed(state: LedgerState, observation: PushObservationModel)
    requires
        state.well_formed(),
        has_room(state.events),
    ensures
        observed(state, observation).well_formed(),
        admitted_commits(state, observation) <= observation.commits.len(),
        replayable(state, observation_writes(state, observation)),
        replayed(state, observation_writes(state, observation)) == observed(state, observation),
{
    let first = notification_writes(state, observation.notification);
    let commits = observed_commits(observation, next_sequence(state.events));
    let count = admitted_commits(state, observation);
    let middle = notified(state, observation.notification);
    lemma_notified(state, observation.notification);
    lemma_admitted_prefix(state.commits, commits);
    lemma_commit_writes(middle, commits.take(count as int));
    table::lemma_asserted_all::<StoredCommit>(state.commits, commits.take(count as int));
    lemma_replay_joined(state, first, commit_writes(commits.take(count as int)));
}

/// A push is recorded under one number: its event carries its notification, and of
/// its commits the first `admitted_commits` are stored, in addition to those that
/// were there. Each is stored as it was given, with the repository, the time and
/// the number of the push. All are stored unless the key of one is taken, by a
/// commit that was there or by an earlier one of the same push.
pub proof fn lemma_push_kept_whole(state: LedgerState, observation: PushObservationModel)
    requires
        state.well_formed(),
        has_room(state.events),
    ensures
        ({
            let after = observed(state, observation);
            let writes = observation_writes(state, observation);
            let count = admitted_commits(state, observation) as int;
            let sequence = after.events.last().sequence;
            let stored = |i: int|
                StoredCommitModel {
                    repository_name: observation.notification.repository_name,
                    received_at: observation.notification.received_at,
                    sequence,
                    commit: observation.commits[i],
                };
            &&& after.events == notified(state, observation.notification).events
            &&& after.events.last().notification == observation.notification
            &&& 0 <= count <= observation.commits.len()
            &&& after.commits.len() == state.commits.len() + count
            &&& forall|commit: StoredCommitModel| #[trigger]
                after.commits.contains(commit) <==> (state.commits.contains(commit) || exists|
                    i: int,
                |
                    0 <= i < count && commit == #[trigger] stored(i))
            &&& forall|i: int, j: int|
                0 <= i < j < count ==> StoredCommit::key_of(#[trigger] stored(i))
                    != StoredCommit::key_of(#[trigger] stored(j))
            &&& count < observation.commits.len() ==> exists|k: int|
                0 <= k < after.commits.len() && StoredCommit::key_of(#[trigger] after.commits[k])
                    == StoredCommit::key_of(stored(count))
            &&& after.registrations == state.registrations
            &&& after.spool_directory_policy == state.spool_directory_policy
            &&& after.mirror_policies == state.mirror_policies
            &&& writes.len() == 1 + count
            &&& writes[0] == StoreWriteModel::AssertEvent(after.events.last())
            &&& forall|i: int|
                0 <= i < count ==> writes[1 + i] == StoreWriteModel::AssertCommit(
                    #[trigger] stored(i),
                )
        }),
{
    let after = observed(state, observation);
    let count = admitted_commits(state, observation) as int;
    let sequence = next_sequence(state.events);
    let commits = observed_commits(observation, sequence);
    let taken = commits.take(count);
    let stored = |i: int|
        StoredCommitModel {
            repository_name: observation.notification.repository_name,
            received_at: observation.notification.received_at,
            sequence,
            commit: observation.commits[i],
        };
    lemma_observed(state, observation);
    lemma_admitted_prefix(state.commits, commits);
    table::lemma_asserted_all::<StoredCommit>(state.commits, taken);
    assert forall|i: int| 0 <= i < commits.len() implies commits[i] == #[trigger] stored(i) by {}
    assert forall|commit: StoredCommitModel| #[trigger] after.commits.contains(commit) <==> (
    state.commits.contains(commit) || exists|i: int|
        0 <= i < count && commit == #[trigger] stored(i)) by {
        if taken.contains(commit) {
            let i = choose|i: int| 0 <= i < taken.len() && taken[i] == commit;
            assert(commit == stored(i));
        }
        if exists|i: int| 0 <= i < count && commit == #[trigger] stored(i) {
            let i = choose|i: int| 0 <= i < count && commit == #[trigger] stored(i);
            assert(taken[i] == commit);
        }
    }
    table::lemma_admitted_distinct::<StoredCommit>(state.commits, taken);
    assert forall|i: int, j: int| 0 <= i < j < count implies StoredCommit::key_of(
        #[trigger] stored(i),
    ) != StoredCommit::key_of(#[trigger] stored(j)) by {
        assert(taken[i] == stored(i) && taken[j] == stored(j));
    }
    if count < observation.commits.len() {
        table::lemma_refused::<StoredCommit>(state.commits, commits);
        assert(commits[count] == stored(count));
    }
    let writes = observation_writes(state, observation);
    assert forall|i: int| 0 <= i < count implies writes[1 + i] == StoreWriteModel::AssertCommit(
        #[trigger] stored(i),
    ) by {
        assert(taken[i] == stored(i));
    }
}

/// The ledger after a registration: the repository's record is replaced, or
/// added where there is none.
pub open spec fn registered(state: LedgerState, registration: RegistrationModel) -> LedgerState {
    replayed(state, registration_writes(state, registration))
}

/// The write that registers a repository.
pub open spec fn registration_writes(
    state: LedgerState,
    registration: RegistrationModel,
) -> Seq<StoreWriteModel> {
    if table::holds::<StoredRegistration>(state.registrations, registration.repository_name) {
        seq![StoreWriteModel::MutateRegistration(registration)]
    } else {
        seq![StoreWriteModel::AssertRegistration(registration)]
    }
}

/// The write that takes a repository out of the catalog.
pub open spec fn retirement_writes(state: LedgerState, name: Seq<char>) -> Seq<StoreWriteModel> {
    if table::holds::<StoredRegistration>(state.registrations, name) {
        seq![StoreWriteModel::RetractRegistration(name)]
    } else {
        Seq::empty()
    }
}

/// The ledger after a retirement: without the repository's record, or as it was
/// where there is none.
pub open spec fn retired(state: LedgerState, name: Seq<char>) -> LedgerState {
    replayed(state, retirement_writes(state, name))
}

/// The write that sets the spool policy.
pub open spec fn spool_policy_writes(
    state: LedgerState,
    policy: SpoolDirectoryPolicyModel,
) -> Seq<StoreWriteModel> {
    if table::holds::<StoredSpoolDirectoryPolicy>(
        state.spool_directory_policy,
        records::active_key(),
    ) {
        seq![StoreWriteModel::MutateSpoolDirectoryPolicy(policy)]
    } else {
        seq![StoreWriteModel::AssertSpoolDirectoryPolicy(policy)]
    }
}

/// The ledger after the spool policy was set.
pub open spec fn spool_policy_set(
    state: LedgerState,
    policy: SpoolDirectoryPolicyModel,
) -> LedgerState {
    replayed(state, spool_policy_writes(state, policy))
}

/// The write that sets the mirror policy of a repository.
pub open spec fn mirror_policy_writes(
    state: LedgerState,
    policy: MirrorPolicyModel,
) -> Seq<StoreWriteModel> {
    if table::holds::<StoredMirrorPolicy>(state.mirror_policies, policy.repository_name) {
        seq![StoreWriteModel::MutateMirrorPolicy(policy)]
    } else {
        seq![StoreWriteModel::AssertMirrorPolicy(policy)]
    }
}

/// The ledger after the mirror policy of a repository was set.
pub open spec fn mirror_policy_set(state: LedgerState, policy: MirrorPolicyModel) -> LedgerState {
    replayed(state, mirror_policy_writes(state, policy))
}

/// A single write that can be made.
pub proof fn lemma_single_write(state: LedgerState, write: StoreWriteModel)
    ensures
        replayed(state, seq![write]) == applied(state, write),
        replayable(state, seq![write]) <==> applicable(state, write),
{
    let writes = seq![write];
    assert(writes.drop_last() =~= Seq::empty());
    reveal_with_fuel(replayed, 2);
    reveal_with_fuel(replayable, 2);
}

/// Registering a repository can always be done, touches the catalog alone, lists
/// the registration, and leaves every other repository as it was.
pub proof fn lemma_registered(state: LedgerState, registration: RegistrationModel)
    requires
        state.well_formed(),
    ensures
        registered(state, registration).well_formed(),
        replayable(state, registration_writes(state, registration)),
        registered(state, registration) == (LedgerState {
            registrations: registered(state, registration).registrations,
            ..state
        }),
        forall|other: RegistrationModel| #[trigger]
            registered(state, registration).registrations.contains(other) <==> (other
                == registration || (state.registrations.contains(other) && other.repository_name
                != registration.repository_name)),
{
    lemma_single_write(state, StoreWriteModel::MutateRegistration(registration));
    lemma_single_write(state, StoreWriteModel::AssertRegistration(registration));
    let after = registered(state, registration).registrations;
    if table::holds::<StoredRegistration>(state.registrations, registration.repository_name) {
        table::lemma_mutated::<StoredRegistration>(state.registrations, registration);
    } else {
        table::lemma_asserted::<StoredRegistration>(state.registrations, registration);
        assert forall|other: RegistrationModel| #[trigger] after.contains(other) <==> (other
            == registration || (state.registrations.contains(other) && other.repository_name
            != registration.repository_name)) by {
            assert(StoredRegistration::key_of(other) == other.repository_name);
            if state.registrations.contains(other) {
                let i = choose|i: int|
                    0 <= i < state.registrations.len() && state.registrations[i] == other;
                assert(StoredRegistration::key_of(state.registrations[i]) == other.repository_name);
            }
        }
    }
}

/// Retiring a repository touches the catalog alone, and takes out that repository
/// alone; where it is not in the catalog, nothing changes.
pub proof fn lemma_retired(state: LedgerState, name: Seq<char>)
    requires
        state.well_formed(),
    ensures
        retired(state, name).well_formed(),
        replayable(state, retirement_writes(state, name)),
        retired(state, name) == (LedgerState {
            registrations: retired(state, name).registrations,
            ..state
        }),
        !table::holds::<StoredRegistration>(state.registrations, name) ==> retired(state, name)
            == state,
        forall|other: RegistrationModel| #[trigger]
            retired(state, name).registrations.contains(other) <==> (state.registrations.contains(
                other,
            ) && other.repository_name != name),
{
    lemma_single_write(state, StoreWriteModel::RetractRegistration(name));
    if table::holds::<StoredRegistration>(state.registrations, name) {
        table::lemma_retracted::<StoredRegistration>(state.registrations, name);
        assert forall|other: RegistrationModel| #[trigger]
            retired(state, name).registrations.contains(other) <==> (state.registrations.contains(
                other,
            ) && other.repository_name != name) by {
            assert(StoredRegistration::key_of(other) == other.repository_name);
        }
    } else {
        assert(retired(state, name) == state);
        assert forall|other: RegistrationModel| #[trigger] state.registrations.contains(
            other,
        ) implies other.repository_name != name by {
            let i = choose|i: int|
                0 <= i < state.registrations.len() && state.registrations[i] == other;
            assert(StoredRegistration::key_of(state.registrations[i]) == other.repository_name);
        }
    }
}

/// Setting the spool policy can always be done, touches nothing else, and leaves
/// that policy alone.
pub proof fn lemma_spool_policy_set(state: LedgerState, policy: SpoolDirectoryPolicyModel)
    requires
        state.well_formed(),
    ensures
        spool_policy_set(state, policy).well_formed(),
        replayable(state, spool_policy_writes(state, policy)),
        spool_policy_set(state, policy) == (LedgerState {
            spool_directory_policy: seq![policy],
            ..state
        }),
{
    lemma_single_write(state, StoreWriteModel::MutateSpoolDirectoryPolicy(policy));
    lemma_single_write(state, StoreWriteModel::AssertSpoolDirectoryPolicy(policy));
    let before = state.spool_directory_policy;
    assert(before.len() <= 1) by {
        if before.len() > 1 {
            table::lemma_keys_differ::<StoredSpoolDirectoryPolicy>(before, 0, 1);
        }
    }
    table::lemma_slot::<StoredSpoolDirectoryPolicy>(before, records::active_key());
    if before.len() == 1 {
        assert(StoredSpoolDirectoryPolicy::key_of(before[0]) == records::active_key());
        table::lemma_mutated::<StoredSpoolDirectoryPolicy>(before, policy);
    } else {
        table::lemma_asserted::<StoredSpoolDirectoryPolicy>(before, policy);
    }
    assert(spool_policy_set(state, policy).spool_directory_policy =~= seq![policy]);
}

/// Setting a mirror policy can always be done, touches nothing else, and leaves
/// the policies of other repositories as they were.
pub proof fn lemma_mirror_policy_set(state: LedgerState, policy: MirrorPolicyModel)
    requires
        state.well_formed(),
    ensures
        mirror_policy_set(state, policy).well_formed(),
        replayable(state, mirror_policy_writes(state, policy)),
        mirror_policy_set(state, policy) == (LedgerState {
            mirror_policies: mirror_policy_set(state, policy).mirror_policies,
            ..state
        }),
        forall|other: MirrorPolicyModel| #[trigger]
            mirror_policy_set(state, policy).mirror_policies.contains(other) <==> (other == policy
                || (state.mirror_policies.contains(other) && other.repository_name
                != policy.repository_name)),
{
    lemma_single_write(state, StoreWriteModel::MutateMirrorPolicy(policy));
    lemma_single_write(state, StoreWriteModel::AssertMirrorPolicy(policy));
    let after = mirror_policy_set(state, policy).mirror_policies;
    if table::holds::<StoredMirrorPolicy>(state.mirror_policies, policy.repository_name) {
        table::lemma_mutated::<StoredMirrorPolicy>(state.mirror_policies, policy);
    } else {
        table::lemma_asserted::<StoredMirrorPolicy>(state.mirror_policies, policy);
        assert forall|other: MirrorPolicyModel| #[trigger] after.contains(other) <==> (other
            == policy || (state.mirror_policies.contains(other) && other.repository_name
            != policy.repository_name)) by {
            assert(StoredMirrorPolicy::key_of(other) == other.repository_name);
            if state.mirror_policies.contains(other) {
                let i = choose|i: int|
                    0 <= i < state.mirror_policies.len() && state.mirror_policies[i] == other;
                assert(StoredMirrorPolicy::key_of(state.mirror_policies[i])
                    == other.repository_name);
            }
        }
    }
}

/// How many events a retention of `retained` keeps: never none, so that the
/// highest sequence number is never forgotten.
pub open spec fn kept_events(retained: u64) -> int {
    if retained == 0 {
        1
    } else {
        retained as int
    }
}

/// How many of the oldest events a retention removes.
pub open spec fn surplus_events(state: LedgerState, retained: u64) -> int {
    if state.events.len() <= kept_events(retained) {
        0
    } else {
        state.events.len() - kept_events(retained)
    }
}

/// The ledger after its history was compacted: without the oldest events.
pub open spec fn compacted(state: LedgerState, retained: u64) -> LedgerState {
    LedgerState { events: state.events.skip(surplus_events(state, retained)), ..state }
}

/// The writes that retract events, from the oldest on.
pub open spec fn retraction_writes(events: Seq<EventModel>) -> Seq<StoreWriteModel> {
    events.map_values(|event: EventModel| StoreWriteModel::RetractEvent(event.sequence))
}

proof fn lemma_retraction_writes(state: LedgerState, count: int)
    requires
        state.well_formed(),
        0 <= count <= state.events.len(),
    ensures
        replayable(state, retraction_writes(state.events.take(count))),
        replayed(state, retraction_writes(state.events.take(count))) == (LedgerState {
            events: state.events.skip(count),
            ..state
        }),
        table::keyed::<StoredEvent>(state.events.skip(count)),
    decreases count,
{
    let writes = retraction_writes(state.events.take(count));
    if count == 0 {
        assert(state.events.skip(0) =~= state.events);
    } else {
        lemma_retraction_writes(state, count - 1);
        let rest = state.events.skip(count - 1);
        assert(writes.drop_last() =~= retraction_writes(state.events.take(count - 1)));
        assert(writes.last() == StoreWriteModel::RetractEvent(rest[0].sequence));
        table::lemma_retracted_first::<StoredEvent>(rest);
        assert(rest.skip(1) =~= state.events.skip(count));
    }
}

/// Compaction keeps the newest events and everything else, never forgets the
/// highest sequence number, and its writes can be made and lead to that.
pub proof fn lemma_compacted(state: LedgerState, retained: u64)
    requires
        state.well_formed(),
    ensures
        compacted(state, retained).well_formed(),
        last_sequence(compacted(state, retained).events) == last_sequence(state.events),
        next_sequence(compacted(state, retained).events) == next_sequence(state.events),
        replayable(
            state,
            retraction_writes(state.events.take(surplus_events(state, retained))),
        ),
        replayed(state, retraction_writes(state.events.take(surplus_events(state, retained))))
            == compacted(state, retained),
        compacted(state, retained).events.len() <= kept_events(retained),
{
    lemma_retraction_writes(state, surplus_events(state, retained));
}

/// Compaction removes events from the front of the history alone: of a history no
/// longer than asked for nothing, and of a longer one all but as many of the newest
/// as asked for, and never the newest.
pub proof fn lemma_compaction_keeps_newest(state: LedgerState, retained: u64)
    ensures
        ({
            let after = compacted(state, retained);
            let gone = state.events.len() - after.events.len();
            &&& state.events.len() <= retained ==> after.events == state.events
            &&& 0 < retained < state.events.len() ==> after.events.len() == retained
            &&& retained == 0 && state.events.len() > 0 ==> after.events.len() == 1
            &&& after.events.len() <= state.events.len()
            &&& forall|i: int|
                0 <= i < after.events.len() ==> #[trigger] after.events[i] == state.events[gone + i]
            &&& after.commits == state.commits
            &&& after.registrations == state.registrations
            &&& after.spool_directory_policy == state.spool_directory_policy
            &&& after.mirror_policies == state.mirror_policies
            &&& surplus_events(state, retained) == gone
            &&& retraction_writes(state.events.take(gone)).len() == gone
            &&& forall|i: int|
                0 <= i < gone ==> #[trigger] retraction_writes(state.events.take(gone))[i]
                    == StoreWriteModel::RetractEvent(state.events[i].sequence)
        }),
{
    assert(state.events.skip(0) =~= state.events);
}

/// One thing that can happen to the ledger.
pub enum LedgerStep {
    Notify(ReceiveHookNotificationModel),
    Observe(PushObservationModel),
    Register(RegistrationModel),
    Retire(Seq<char>),
    SetSpoolPolicy(SpoolDirectoryPolicyModel),
    SetMirrorPolicy(MirrorPolicyModel),
    Compact(u64),
}

/// The ledger after a step.
pub open spec fn stepped(state: LedgerState, step: LedgerStep) -> LedgerState {
    match step {
        LedgerStep::Notify(notification) => notified(state, notification),
        LedgerStep::Observe(observation) => observed(state, observation),
        LedgerStep::Register(registration) => registered(state, registration),
        LedgerStep::Retire(name) => retired(state, name),
        LedgerStep::SetSpoolPolicy(policy) => spool_policy_set(state, policy),
        LedgerStep::SetMirrorPolicy(policy) => mirror_policy_set(state, policy),
        LedgerStep::Compact(retained) => compacted(state, retained),
    }
}

/// Whether a step records an event, and so gives out a sequence number.
pub open spec fn gives_number(step: LedgerStep) -> bool {
    step is Notify || step is Observe
}

/// The ledger after some steps.
pub open spec fn walked(state: LedgerState, steps: Seq<LedgerStep>) -> LedgerState
    decreases steps.len(),
{
    if steps.len() == 0 {
        state
    } else {
        stepped(walked(state, steps.drop_last()), steps.last())
    }
}

/// Whether a sequence number is left at every step that gives one out.
pub open spec fn walkable(state: LedgerState, steps: Seq<LedgerStep>) -> bool
    decreases steps.len(),
{
    steps.len() > 0 ==> {
        &&& walkable(state, steps.drop_last())
        &&& gives_number(steps.last()) ==> has_room(walked(state, steps.drop_last()).events)
    }
}

proof fn lemma_stepped(state: LedgerState, step: LedgerStep)
    requires
        state.well_formed(),
        gives_number(step) ==> has_room(state.events),
    ensures
        stepped(state, step).well_formed(),
        last_sequence(stepped(state, step).events) == if gives_number(step) {
            next_sequence(state.events)
        } else {
            last_sequence(state.events)
        },
{
    match step {
        LedgerStep::Notify(notification) => lemma_notified(state, notification),
        LedgerStep::Observe(observation) => {
            lemma_notified(state, observation.notification);
            lemma_observed(state, observation);
        },
        LedgerStep::Register(registration) => lemma_registered(state, registration),
        LedgerStep::Retire(name) => lemma_retired(state, name),
        LedgerStep::SetSpoolPolicy(policy) => lemma_spool_policy_set(state, policy),
        LedgerStep::SetMirrorPolicy(policy) => lemma_mirror_policy_set(state, policy),
        LedgerStep::Compact(retained) => lemma_compacted(state, retained),
    }
}

/// Whatever happens to a ledger, every table stays in the order of its keys, and
/// the highest sequence number that was given out is never forgotten.
pub proof fn lemma_walked(state: LedgerState, steps: Seq<LedgerStep>, count: int)
    requires
        state.well_formed(),
        walkable(state, steps),
        0 <= count <= steps.len(),
    ensures
        walked(state, steps).well_formed(),
        walkable(state, steps.take(count)),
        last_sequence(walked(state, steps.take(count)).events) <= last_sequence(
            walked(state, steps).events,
        ),
    decreases steps.len(),
{
    if count == steps.len() {
        assert(steps.take(count) =~= steps);
    }
    if steps.len() > 0 {
        let earlier = steps.drop_last();
        if count < steps.len() {
            lemma_walked(state, earlier, count);
            assert(earlier.take(count) =~= steps.take(count));
        } else {
            lemma_walked(state, earlier, earlier.len() as int);
        }
        lemma_stepped(walked(state, earlier), steps.last());
    }
}

/// No sequence number is given out twice: whatever happens between two events,
/// compactions of the history included, the later event has the higher number.
pub proof fn lemma_sequences_never_reused(
    state: LedgerState,
    steps: Seq<LedgerStep>,
    first: int,
    second: int,
)
    requires
        state.well_formed(),
        walkable(state, steps),
        0 <= first < second < steps.len(),
        gives_number(steps[first]),
        gives_number(steps[second]),
    ensures
        next_sequence(walked(state, steps.take(first)).events) < next_sequence(
            walked(state, steps.take(second)).events,
        ),
{
    let until_second = steps.take(second + 1);
    let until_first = steps.take(first + 1);
    lemma_walked(state, steps, second + 1);
    lemma_walked(state, until_second, second);
    assert(until_second.take(second) =~= steps.take(second));
    assert(until_second.drop_last() =~= steps.take(second));
    lemma_walked(state, steps.take(second), first + 1);
    assert(steps.take(second).take(first + 1) =~= until_first);
    lemma_walked(state, until_first, first);
    assert(until_first.take(first) =~= steps.take(first));
    assert(until_first.drop_last() =~= steps.take(first));
    lemma_walked(state, steps.take(first), first);
    lemma_stepped(walked(state, steps.take(first)), steps[first]);
}

/// Whether every commit belongs to an event that was recorded, or to one that was
/// recorded and compacted away.
pub open spec fn commits_follow_events(state: LedgerState) -> bool {
    forall|i: int|
        0 <= i < state.commits.len() ==> (#[trigger] state.commits[i]).sequence <= last_sequence(
            state.events,
        )
}

proof fn lemma_commit_keys_differ(left: StoredCommitModel, right: StoredCommitModel)
    requires
        left.sequence != right.sequence,
    ensures
        StoredCommit::key_of(left) != StoredCommit::key_of(right),
{
    let left_key = StoredCommit::key_of(left);
    let right_key = StoredCommit::key_of(right);
    records::lemma_event_key_order(left.sequence, right.sequence);
    records::lemma_padded_length(left.sequence as nat, 20);
    records::lemma_padded_length(right.sequence as nat, 20);
    assert(left_key.take(20) =~= records::event_key(left.sequence));
    assert(right_key.take(20) =~= records::event_key(right.sequence));
}

/// Steps keep every commit with an event that was recorded.
pub proof fn lemma_commits_follow_events(state: LedgerState, step: LedgerStep)
    requires
        state.well_formed(),
        gives_number(step) ==> has_room(state.events),
        commits_follow_events(state),
    ensures
        commits_follow_events(stepped(state, step)),
{
    lemma_stepped(state, step);
    let after = stepped(state, step);
    match step {
        LedgerStep::Observe(observation) => {
            let sequence = next_sequence(state.events);
            let commits = observed_commits(observation, sequence);
            let count = admitted_commits(state, observation) as int;
            lemma_admitted_prefix(state.commits, commits);
            table::lemma_asserted_all::<StoredCommit>(state.commits, commits.take(count));
            assert forall|i: int| 0 <= i < after.commits.len() implies (
            #[trigger] after.commits[i]).sequence <= last_sequence(after.events) by {
                let commit = after.commits[i];
                assert(after.commits.contains(commit));
                if state.commits.contains(commit) {
                    let j = choose|j: int| 0 <= j < state.commits.len() && state.commits[j] == commit;
                    assert(state.commits[j].sequence <= last_sequence(state.events));
                } else {
                    let taken = commits.take(count);
                    let j = choose|j: int| 0 <= j < taken.len() && taken[j] == commit;
                    assert(taken[j] == commits[j]);
                }
            }
        },
        LedgerStep::Register(registration) => lemma_registered(state, registration),
        LedgerStep::Retire(name) => lemma_retired(state, name),
        LedgerStep::SetSpoolPolicy(policy) => lemma_spool_policy_set(state, policy),
        LedgerStep::SetMirrorPolicy(policy) => lemma_mirror_policy_set(state, policy),
        _ => {},
    }
}

/// Where every commit belongs to an event that was recorded, a push is recorded
/// whole unless two of its own commits have the same key.
pub proof fn lemma_observation_admitted(state: LedgerState, observation: PushObservationModel)
    requires
        state.well_formed(),
        has_room(state.events),
        commits_follow_events(state),
        forall|i: int, j: int|
            0 <= i < j < observation.commits.len() ==> StoredCommit::key_of(
                #[trigger] observed_commits(observation, next_sequence(state.events))[i],
            ) != StoredCommit::key_of(
                #[trigger] observed_commits(observation, next_sequence(state.events))[j],
            ),
    ensures
        admitted_commits(state, observation) == observation.commits.len(),
{
    let commits = observed_commits(observation, next_sequence(state.events));
    assert(commits.take(commits.len() as int) =~= commits);
    lemma_fresh_commits_admitted(state, observation, commits.len() as int);
}

proof fn lemma_fresh_commits_admitted(
    state: LedgerState,
    observation: PushObservationModel,
    count: int,
)
    requires
        state.well_formed(),
        has_room(state.events),
        commits_follow_events(state),
        0 <= count <= observation.commits.len(),
        forall|i: int, j: int|
            0 <= i < j < observation.commits.len() ==> StoredCommit::key_of(
                #[trigger] observed_commits(observation, next_sequence(state.events))[i],
            ) != StoredCommit::key_of(
                #[trigger] observed_commits(observation, next_sequence(state.events))[j],
            ),
    ensures
        table::admitted::<StoredCommit>(
            state.commits,
            observed_commits(observation, next_sequence(state.events)).take(count),
        ) == count,
    decreases count,
{
    if count > 0 {
        let commits = observed_commits(observation, next_sequence(state.events));
        let offered = commits.take(count);
        let earlier = commits.take(count - 1);
        lemma_fresh_commits_admitted(state, observation, count - 1);
        assert(offered.drop_last() =~= earlier);
        assert(offered.last() == commits[count - 1]);
        table::lemma_asserted_all::<StoredCommit>(state.commits, earlier);
        let stored = table::asserted_all::<StoredCommit>(state.commits, earlier);
        assert forall|i: int| 0 <= i < stored.len() implies StoredCommit::key_of(
            #[trigger] stored[i],
        ) != StoredCommit::key_of(commits[count - 1]) by {
            let commit = stored[i];
            assert(stored.contains(commit));
            if state.commits.contains(commit) {
                let j = choose|j: int| 0 <= j < state.commits.len() && state.commits[j] == commit;
                assert(state.commits[j].sequence <= last_sequence(state.events));
                lemma_commit_keys_differ(commit, commits[count - 1]);
            } else {
                let j = choose|j: int| 0 <= j < earlier.len() && earlier[j] == commit;
                assert(earlier[j] == commits[j]);
            }
        }
    }
}

impl StoreWrite {
    /// The model is of the same variant, and says what the value says.
    pub proof fn lemma_modelled(&self)
        ensures
            match *self {
                StoreWrite::AssertEvent(value) => self@ == StoreWriteModel::AssertEvent(value@),
                StoreWrite::RetractEvent(value) => self@ == StoreWriteModel::RetractEvent(value@),
                StoreWrite::AssertCommit(value) => self@ == StoreWriteModel::AssertCommit(value@),
                StoreWrite::AssertRegistration(value) => {
                    self@ == StoreWriteModel::AssertRegistration(value@)
                },
                StoreWrite::MutateRegistration(value) => {
                    self@ == StoreWriteModel::MutateRegistration(value@)
                },
                StoreWrite::RetractRegistration(value) => {
                    self@ == StoreWriteModel::RetractRegistration(value@)
                },
                StoreWrite::AssertSpoolDirectoryPolicy(value) => {
                    self@ == StoreWriteModel::AssertSpoolDirectoryPolicy(value@)
                },
                StoreWrite::MutateSpoolDirectoryPolicy(value) => {
                    self@ == StoreWriteModel::MutateSpoolDirectoryPolicy(value@)
                },
                StoreWrite::AssertMirrorPolicy(value) => {
                    self@ == StoreWriteModel::AssertMirrorPolicy(value@)
                },
                StoreWrite::MutateMirrorPolicy(value) => {
                    self@ == StoreWriteModel::MutateMirrorPolicy(value@)
                },
            },
    {
    }
}

} // verus!
