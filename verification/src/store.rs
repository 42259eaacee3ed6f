//! The store: the ledger's tables, and the writes that a record engine still has
//! to make so that it holds the same.
use vstd::prelude::*;

use crate::contract::{
    CatalogListing, ChangedFileListing, ChangedFiles, CommitListing, CommitMessages,
    EventListing, EventRecorded, EventSequence, Events, PushObservation, PushObservationModel,
    Query, QueryModel, QueryResult, QueryResultModel, ReceiveHookNotification, RecentRepositories,
    RecentRepositoriesListing, Registration, RegistrationModel,
};
use crate::error::{EngineError, Error, Result};
use crate::ledger;
use crate::ledger::{LedgerState, StoreWrite, StoreWriteModel};
use crate::meta_contract::{
    MirrorPolicy, MirrorPolicyModel, MirrorPolicySet, Retired, Retirement, SpoolDirectoryPolicy,
    SpoolDirectoryPolicySet,
};
use crate::model;
use crate::model::Duplicate;
use crate::queries;
use crate::queries::{
    answer_catalog, answer_commits, answer_events, answer_files, answer_recent,
};
use crate::records::{
    EngineRecord, RecordKey, StoredCommit, StoredCommitModel, StoredEvent, StoredMirrorPolicy, StoredRegistration,
    StoredSpoolDirectoryPolicy,
};
use crate::table;
use crate::table::Table;

verus! {

/// How many of the newest events a compaction of the history keeps. One event is
/// always kept: it carries the highest sequence number.
#[derive(Debug, Clone, Copy, PartialEq, Eq)]
pub struct LedgerHistoryRetention {
    retained: u64,
}

impl View for LedgerHistoryRetention {
    type V = u64;

    closed spec fn view(&self) -> u64 {
        self.retained
    }
}

impl LedgerHistoryRetention {
    pub fn new(retained: u64) -> (retention: Self)
        ensures
            retention@ == retained,
    {
        LedgerHistoryRetention { retained }
    }
}

/// The records that a record engine holds, table by table.
#[derive(Debug, PartialEq, Eq)]
pub struct StoreSnapshot {
    pub events: Vec<StoredEvent>,
    pub commits: Vec<StoredCommit>,
    pub registrations: Vec<StoredRegistration>,
    pub spool_directory_policy: Vec<StoredSpoolDirectoryPolicy>,
    pub mirror_policies: Vec<StoredMirrorPolicy>,
}

impl View for StoreSnapshot {
    type V = LedgerState;

    open spec fn view(&self) -> LedgerState {
        LedgerState {
            events: model::models(self.events@),
            commits: model::models(self.commits@),
            registrations: model::models(self.registrations@),
            spool_directory_policy: model::models(self.spool_directory_policy@),
            mirror_policies: model::models(self.mirror_policies@),
        }
    }
}

impl StoreSnapshot {
    /// The records of an engine that was never written to.
    pub fn empty() -> (snapshot: Self)
        ensures
            snapshot@ == (LedgerState {
                events: Seq::empty(),
                commits: Seq::empty(),
                registrations: Seq::empty(),
                spool_directory_policy: Seq::empty(),
                mirror_policies: Seq::empty(),
            }),
    {
        let snapshot = StoreSnapshot {
            events: Vec::new(),
            commits: Vec::new(),
            registrations: Vec::new(),
            spool_directory_policy: Vec::new(),
            mirror_policies: Vec::new(),
        };
        assert(snapshot@.events =~= Seq::empty());
        assert(snapshot@.commits =~= Seq::empty());
        assert(snapshot@.registrations =~= Seq::empty());
        assert(snapshot@.spool_directory_policy =~= Seq::empty());
        assert(snapshot@.mirror_policies =~= Seq::empty());
        snapshot
    }
}

/// The key of the first record whose key is taken by one before it, if any.
pub open spec fn duplicate_key<R: EngineRecord>(records: Seq<R::V>) -> Option<Seq<char>> {
    let count = table::admitted::<R>(Seq::empty(), records);
    if count < records.len() {
        Some(R::key_of(records[count as int]))
    } else {
        None
    }
}

/// The first key that a snapshot holds twice in one table, table by table.
pub open spec fn snapshot_fault(snapshot: LedgerState) -> Option<Seq<char>> {
    if duplicate_key::<StoredEvent>(snapshot.events) is Some {
        duplicate_key::<StoredEvent>(snapshot.events)
    } else if duplicate_key::<StoredCommit>(snapshot.commits) is Some {
        duplicate_key::<StoredCommit>(snapshot.commits)
    } else if duplicate_key::<StoredRegistration>(snapshot.registrations) is Some {
        duplicate_key::<StoredRegistration>(snapshot.registrations)
    } else if duplicate_key::<StoredSpoolDirectoryPolicy>(
        snapshot.spool_directory_policy,
    ) is Some {
        duplicate_key::<StoredSpoolDirectoryPolicy>(snapshot.spool_directory_policy)
    } else {
        duplicate_key::<StoredMirrorPolicy>(snapshot.mirror_policies)
    }
}

/// A snapshot with every table in the order of its keys.
pub open spec fn arranged(snapshot: LedgerState) -> LedgerState {
    LedgerState {
        events: table::asserted_all::<StoredEvent>(Seq::empty(), snapshot.events),
        commits: table::asserted_all::<StoredCommit>(Seq::empty(), snapshot.commits),
        registrations: table::asserted_all::<StoredRegistration>(
            Seq::empty(),
            snapshot.registrations,
        ),
        spool_directory_policy: table::asserted_all::<StoredSpoolDirectoryPolicy>(
            Seq::empty(),
            snapshot.spool_directory_policy,
        ),
        mirror_policies: table::asserted_all::<StoredMirrorPolicy>(
            Seq::empty(),
            snapshot.mirror_policies,
        ),
    }
}

/// A snapshot whose tables are in the order of their keys has no fault, and is
/// taken as it is.
pub proof fn lemma_arranged(snapshot: LedgerState)
    requires
        snapshot.well_formed(),
    ensures
        snapshot_fault(snapshot) is None,
        arranged(snapshot) == snapshot,
{
    table::lemma_loaded::<StoredEvent>(snapshot.events);
    table::lemma_loaded::<StoredCommit>(snapshot.commits);
    table::lemma_loaded::<StoredRegistration>(snapshot.registrations);
    table::lemma_loaded::<StoredSpoolDirectoryPolicy>(snapshot.spool_directory_policy);
    table::lemma_loaded::<StoredMirrorPolicy>(snapshot.mirror_policies);
}

proof fn lemma_table_opened<R: EngineRecord>(records: Seq<R::V>)
    ensures
        duplicate_key::<R>(records) is None <==> forall|i: int, j: int|
            0 <= i < j < records.len() ==> R::key_of(#[trigger] records[i]) != R::key_of(
                #[trigger] records[j],
            ),
        duplicate_key::<R>(records) is None ==> table::keyed::<R>(
            table::asserted_all::<R>(Seq::empty(), records),
        ) && table::asserted_all::<R>(Seq::empty(), records).to_multiset()
            == records.to_multiset(),
        duplicate_key::<R>(records) matches Some(key) ==> exists|i: int, j: int|
            0 <= i < j < records.len() && R::key_of(#[trigger] records[i]) == key && R::key_of(
                #[trigger] records[j],
            ) == key,
{
    let none = Seq::<R::V>::empty();
    if duplicate_key::<R>(records) is Some {
        let count = table::admitted::<R>(none, records) as int;
        let taken = records.take(count);
        table::lemma_refused::<R>(none, records);
        table::lemma_admitted_prefix::<R>(none, records);
        table::lemma_asserted_all::<R>(none, taken);
        let stored = table::asserted_all::<R>(none, taken);
        let k = choose|k: int|
            0 <= k < stored.len() && R::key_of(#[trigger] stored[k]) == R::key_of(records[count]);
        assert(stored.contains(stored[k]));
        let i = choose|i: int| 0 <= i < taken.len() && taken[i] == stored[k];
        assert(records[i] == taken[i]);
        assert(R::key_of(records[i]) == R::key_of(records[count]));
    }
    table::lemma_admitted::<R>(none, records, records.len() as int);
    if duplicate_key::<R>(records) is None {
        table::lemma_admitted_distinct::<R>(none, records);
        table::lemma_asserted_all::<R>(none, records);
        table::lemma_asserted_permutes::<R>(none, records);
        assert(none + records =~= records);
    }
    if forall|i: int, j: int|
        0 <= i < j < records.len() ==> R::key_of(#[trigger] records[i]) != R::key_of(
            #[trigger] records[j],
        ) {
        table::lemma_distinct_admitted::<R>(none, records);
    }
}

/// A snapshot is taken exactly where no table holds a key twice. The store then
/// holds every record of every table, each as often as the snapshot does, in the
/// order of the keys.
pub proof fn lemma_opened(snapshot: LedgerState)
    ensures
        snapshot_fault(snapshot) is None <==> {
            &&& (forall|i: int, j: int|
                0 <= i < j < snapshot.events.len() ==> StoredEvent::key_of(
                    #[trigger] snapshot.events[i],
                ) != StoredEvent::key_of(#[trigger] snapshot.events[j]))
            &&& (forall|i: int, j: int|
                0 <= i < j < snapshot.commits.len() ==> StoredCommit::key_of(
                    #[trigger] snapshot.commits[i],
                ) != StoredCommit::key_of(#[trigger] snapshot.commits[j]))
            &&& (forall|i: int, j: int|
                0 <= i < j < snapshot.registrations.len() ==> StoredRegistration::key_of(
                    #[trigger] snapshot.registrations[i],
                ) != StoredRegistration::key_of(#[trigger] snapshot.registrations[j]))
            &&& (forall|i: int, j: int|
                0 <= i < j < snapshot.spool_directory_policy.len() ==> StoredSpoolDirectoryPolicy::key_of(
                    #[trigger] snapshot.spool_directory_policy[i],
                ) != StoredSpoolDirectoryPolicy::key_of(#[trigger] snapshot.spool_directory_policy[j]))
            &&& (forall|i: int, j: int|
                0 <= i < j < snapshot.mirror_policies.len() ==> StoredMirrorPolicy::key_of(
                    #[trigger] snapshot.mirror_policies[i],
                ) != StoredMirrorPolicy::key_of(#[trigger] snapshot.mirror_policies[j]))
        },
        snapshot_fault(snapshot) is None ==> {
            &&& arranged(snapshot).events.to_multiset() == snapshot.events.to_multiset()
            &&& table::keyed::<StoredEvent>(arranged(snapshot).events)
            &&& arranged(snapshot).commits.to_multiset() == snapshot.commits.to_multiset()
            &&& table::keyed::<StoredCommit>(arranged(snapshot).commits)
            &&& arranged(snapshot).registrations.to_multiset() == snapshot.registrations.to_multiset()
            &&& table::keyed::<StoredRegistration>(arranged(snapshot).registrations)
            &&& arranged(snapshot).spool_directory_policy.to_multiset() == snapshot.spool_directory_policy.to_multiset()
            &&& table::keyed::<StoredSpoolDirectoryPolicy>(arranged(snapshot).spool_directory_policy)
            &&& arranged(snapshot).mirror_policies.to_multiset() == snapshot.mirror_policies.to_multiset()
            &&& table::keyed::<StoredMirrorPolicy>(arranged(snapshot).mirror_policies)
        },
{
    lemma_table_opened::<StoredEvent>(snapshot.events);
    lemma_table_opened::<StoredCommit>(snapshot.commits);
    lemma_table_opened::<StoredRegistration>(snapshot.registrations);
    lemma_table_opened::<StoredSpoolDirectoryPolicy>(snapshot.spool_directory_policy);
    lemma_table_opened::<StoredMirrorPolicy>(snapshot.mirror_policies);
}

/// An error says that a record is there, or is missing, exactly where it is that error
/// of the record engine and names the key.
pub proof fn lemma_errors_name_keys(error: Error, key: Seq<char>)
    ensures
        says_exists(error, key) <==> (error matches Error::Engine(
            EngineError::RecordExists { key: named },
        ) && named@ == key),
        says_missing(error, key) <==> (error matches Error::Engine(
            EngineError::RecordNotFound { key: named },
        ) && named@ == key),
{
}

/// A query is answered by the listing that it asks for, from the records that this
/// listing is made of, and the catalog as it is.
pub proof fn lemma_query_answered(state: LedgerState, query: QueryModel)
    ensures
        match query {
            QueryModel::Events(asked) => query_answer(state, query) == QueryResultModel::Events(
                queries::events_answer(state.events, asked),
            ),
            QueryModel::RecentRepositories(asked) => query_answer(state, query)
                == QueryResultModel::RecentRepositories(
                queries::recent_answer(state.events, asked),
            ),
            QueryModel::ChangedFiles(asked) => query_answer(state, query)
                == QueryResultModel::ChangedFiles(queries::files_answer(state.commits, asked)),
            QueryModel::CommitMessages(asked) => query_answer(state, query)
                == QueryResultModel::Commits(queries::commits_answer(state.commits, asked)),
            QueryModel::Catalog => query_answer(state, query) == QueryResultModel::Catalog(
                state.registrations,
            ),
        },
{
}

/// Whether an error says that a record is kept under `key` already.
pub open spec fn says_exists(error: Error, key: Seq<char>) -> bool {
    error matches Error::Engine(EngineError::RecordExists { key: taken }) && taken@ == key
}

/// Whether an error says that no record is kept under `key`.
pub open spec fn says_missing(error: Error, key: Seq<char>) -> bool {
    error matches Error::Engine(EngineError::RecordNotFound { key: missing }) && missing@ == key
}

/// The catalog holds a name exactly where a repository of that name is in it.
pub proof fn lemma_catalog_holds(registrations: Seq<RegistrationModel>, name: Seq<char>)
    ensures
        table::holds::<StoredRegistration>(registrations, name) <==> exists|i: int|
            0 <= i < registrations.len() && (#[trigger] registrations[i]).repository_name == name,
{
    assert forall|i: int| 0 <= i < registrations.len() implies StoredRegistration::key_of(
        registrations[i],
    ) == (#[trigger] registrations[i]).repository_name by {}
    if table::holds::<StoredRegistration>(registrations, name) {
        let i = choose|i: int|
            0 <= i < registrations.len() && StoredRegistration::key_of(#[trigger] registrations[i])
                == name;
        assert(registrations[i].repository_name == name);
    }
}

proof fn lemma_commits_kept(state: LedgerState, observation: PushObservationModel)
    requires
        state.well_formed(),
        ledger::has_room(state.events),
    ensures
        ({
            let after = ledger::observed(state, observation);
            forall|i: int|
                0 <= i < ledger::admitted_commits(state, observation) ==> after.commits.contains(
                    StoredCommitModel {
                        repository_name: observation.notification.repository_name,
                        received_at: observation.notification.received_at,
                        sequence: after.events.last().sequence,
                        commit: #[trigger] observation.commits[i],
                    },
                )
        }),
{
    let after = ledger::observed(state, observation);
    let stored = |i: int|
        StoredCommitModel {
            repository_name: observation.notification.repository_name,
            received_at: observation.notification.received_at,
            sequence: after.events.last().sequence,
            commit: observation.commits[i],
        };
    ledger::lemma_push_kept_whole(state, observation);
    assert forall|i: int|
        0 <= i < ledger::admitted_commits(state, observation) implies after.commits.contains(
        StoredCommitModel {
            repository_name: observation.notification.repository_name,
            received_at: observation.notification.received_at,
            sequence: after.events.last().sequence,
            commit: #[trigger] observation.commits[i],
        },
    ) by {
        assert(after.commits.contains(stored(i)));
    }
}

/// What a query answers.
pub open spec fn query_answer(state: LedgerState, query: QueryModel) -> QueryResultModel {
    match query {
        QueryModel::Events(query) => QueryResultModel::Events(
            queries::events_answer(state.events, query),
        ),
        QueryModel::RecentRepositories(query) => QueryResultModel::RecentRepositories(
            queries::recent_answer(state.events, query),
        ),
        QueryModel::ChangedFiles(query) => QueryResultModel::ChangedFiles(
            queries::files_answer(state.commits, query),
        ),
        QueryModel::CommitMessages(query) => QueryResultModel::Commits(
            queries::commits_answer(state.commits, query),
        ),
        QueryModel::Catalog => QueryResultModel::Catalog(state.registrations),
    }
}

/// The ledger's tables, with the writes since they were last taken.
#[derive(Debug, PartialEq, Eq)]
pub struct Store {
    events: Table<StoredEvent>,
    commits: Table<StoredCommit>,
    registrations: Table<StoredRegistration>,
    spool_directory_policy: Table<StoredSpoolDirectoryPolicy>,
    mirror_policies: Table<StoredMirrorPolicy>,
    writes: Vec<StoreWrite>,
}

impl View for Store {
    type V = LedgerState;

    closed spec fn view(&self) -> LedgerState {
        LedgerState {
            events: self.events@,
            commits: self.commits@,
            registrations: self.registrations@,
            spool_directory_policy: self.spool_directory_policy@,
            mirror_policies: self.mirror_policies@,
        }
    }
}

impl Store {
    /// Whether every table is well-formed.
    pub closed spec fn well_formed(&self) -> bool {
        &&& self.events.well_formed()
        &&& self.commits.well_formed()
        &&& self.registrations.well_formed()
        &&& self.spool_directory_policy.well_formed()
        &&& self.mirror_policies.well_formed()
    }

    /// The writes that were made since they were last taken, the first one first.
    pub closed spec fn pending(&self) -> Seq<StoreWriteModel> {
        model::models(self.writes@)
    }

    /// A well-formed store holds a well-formed ledger.
    pub proof fn lemma_well_formed(&self)
        requires
            self.well_formed(),
        ensures
            self@.well_formed(),
    {
        self.events.lemma_keyed();
        self.commits.lemma_keyed();
        self.registrations.lemma_keyed();
        self.spool_directory_policy.lemma_keyed();
        self.mirror_policies.lemma_keyed();
    }

    /// Opens the store on what the record engine holds.
    pub fn open(snapshot: StoreSnapshot) -> (result: Result<Self>)
        ensures
            match result {
                Ok(store) => {
                    &&& snapshot_fault(snapshot@) is None
                    &&& store.well_formed()
                    &&& store@ == arranged(snapshot@)
                    &&& store.pending() == Seq::<StoreWriteModel>::empty()
                },
                Err(error) => snapshot_fault(snapshot@) matches Some(key) && says_exists(error, key),
            },
    {
        let events = match Table::load(snapshot.events) {
            Ok(table) => table,
            Err(error) => return Err(Error::Engine(error)),
        };
        let commits = match Table::load(snapshot.commits) {
            Ok(table) => table,
            Err(error) => return Err(Error::Engine(error)),
        };
        let registrations = match Table::load(snapshot.registrations) {
            Ok(table) => table,
            Err(error) => return Err(Error::Engine(error)),
        };
        let spool_directory_policy = match Table::load(snapshot.spool_directory_policy) {
            Ok(table) => table,
            Err(error) => return Err(Error::Engine(error)),
        };
        let mirror_policies = match Table::load(snapshot.mirror_policies) {
            Ok(table) => table,
            Err(error) => return Err(Error::Engine(error)),
        };
        let store = Store {
            events,
            commits,
            registrations,
            spool_directory_policy,
            mirror_policies,
            writes: Vec::new(),
        };
        assert(store.pending() =~= Seq::<StoreWriteModel>::empty());
        Ok(store)
    }

    /// Whether every write was handed over to the record engine.
    pub fn is_settled(&self) -> (settled: bool)
        ensures
            settled == (self.pending().len() == 0),
    {
        self.writes.len() == 0
    }

    /// Hands over the writes that the record engine has still to make, in order.
    pub fn take_writes(&mut self) -> (taken: Vec<StoreWrite>)
        requires
            old(self).well_formed(),
        ensures
            final(self).well_formed(),
            final(self)@ == old(self)@,
            final(self).pending() == Seq::<StoreWriteModel>::empty(),
            model::models(taken@) == old(self).pending(),
    {
        let mut taken: Vec<StoreWrite> = Vec::new();
        core::mem::swap(&mut self.writes, &mut taken);
        assert(self.pending() =~= Seq::<StoreWriteModel>::empty());
        taken
    }

    fn note(&mut self, write: StoreWrite)
        requires
            old(self).well_formed(),
        ensures
            final(self).well_formed(),
            final(self)@ == old(self)@,
            final(self).pending() == old(self).pending().push(write@),
    {
        let ghost before = self.pending();
        let ghost added = write@;
        self.writes.push(write);
        assert(self.pending() =~= before.push(added));
    }

    /// The highest sequence number that was given out, or zero.
    fn last_event_sequence(&self) -> (sequence: u64)
        ensures
            sequence == ledger::last_sequence(self@.events),
    {
        let records = self.events.records();
        let count: usize = records.len();
        if count == 0 {
            return 0;
        }
        assert(self@.events.last() == records@[count - 1]@);
        records[count - 1].sequence.into_u64()
    }

    /// Whether a sequence number is left for another event.
    pub fn has_sequence_left(&self) -> (left: bool)
        ensures
            left == ledger::has_room(self@.events),
            left <==> (self@.events.len() == 0 || self@.events.last().sequence < u64::MAX),
    {
        self.last_event_sequence() < u64::MAX
    }

    /// The sequence number of the next event.
    fn next_event_sequence(&self) -> (sequence: EventSequence)
        requires
            ledger::has_room(self@.events),
        ensures
            sequence@ == ledger::next_sequence(self@.events),
    {
        EventSequence::new(self.last_event_sequence() + 1)
    }

    /// Records what a receive hook reports, under the next sequence number.
    pub fn record_hook_notification(&mut self, notification: ReceiveHookNotification) -> (result:
        Result<EventRecorded>)
        requires
            old(self).well_formed(),
            ledger::has_room(old(self)@.events),
        ensures
            final(self).well_formed(),
            final(self)@ == ledger::notified(old(self)@, notification@),
            final(self).pending() == old(self).pending() + ledger::notification_writes(
                old(self)@,
                notification@,
            ),
            result matches Ok(recorded) && recorded@ == ledger::next_sequence(old(self)@.events),
            queries::events_answer(final(self)@.events, queries::every_event())
                == queries::events_answer(old(self)@.events, queries::every_event()).push(
                ledger::next_event(old(self)@, notification@),
            ),
            final(self)@.events.len() == old(self)@.events.len() + 1,
            final(self)@.events.drop_last() == old(self)@.events,
            final(self)@.events.last().notification == notification@,
            final(self)@.events.last().notification.ref_updates == model::models(
                notification.ref_updates@,
            ),
            result matches Ok(recorded) && final(self)@.events.last().sequence
                == recorded.sequence@,
            result matches Ok(recorded) && (if old(self)@.events.len() == 0 {
                recorded.sequence@ == 1
            } else {
                recorded.sequence@ == old(self)@.events.last().sequence + 1
            }),
            final(self)@.commits == old(self)@.commits,
            final(self)@.registrations == old(self)@.registrations,
            final(self)@.spool_directory_policy == old(self)@.spool_directory_policy,
            final(self)@.mirror_policies == old(self)@.mirror_policies,
            final(self).pending() == old(self).pending().push(
                StoreWriteModel::AssertEvent(final(self)@.events.last()),
            ),
    {
        let ghost before = *self;
        let sequence = self.next_event_sequence();
        let record = StoredEvent { sequence, notification };
        let ghost event = ledger::next_event(before@, notification@);
        proof {
            self.lemma_well_formed();
            ledger::lemma_notified(before@, notification@);
            ledger::lemma_single_write(before@, StoreWriteModel::AssertEvent(event));
            assert(record@ == event);
        }
        let noted = record.duplicate();
        match self.events.assert_record(record) {
            Ok(()) => {},
            Err(error) => return Err(Error::Engine(error)),
        }
        self.note(StoreWrite::AssertEvent(noted));
        assert(self@ =~= ledger::notified(before@, notification@));
        proof {
            self.events.lemma_bounded();
            queries::lemma_recording_appends(before@, notification@);
            ledger::lemma_notification_kept_whole(before@, notification@);
        }
        assert(self.pending() =~= before.pending() + ledger::notification_writes(
            before@,
            notification@,
        ));
        Ok(EventRecorded { sequence })
    }

    /// Adds one commit of a push.
    fn record_commit(&mut self, record: StoredCommit) -> (result: Result<()>)
        requires
            old(self).well_formed(),
        ensures
            final(self).well_formed(),
            match result {
                Ok(()) => {
                    &&& !table::holds::<StoredCommit>(
                        old(self)@.commits,
                        StoredCommit::key_of(record@),
                    )
                    &&& final(self)@ == (LedgerState {
                        commits: table::asserted::<StoredCommit>(old(self)@.commits, record@),
                        ..old(self)@
                    })
                    &&& final(self).pending() == old(self).pending().push(
                        StoreWriteModel::AssertCommit(record@),
                    )
                },
                Err(error) => {
                    &&& table::holds::<StoredCommit>(
                        old(self)@.commits,
                        StoredCommit::key_of(record@),
                    )
                    &&& final(self)@ == old(self)@
                    &&& final(self).pending() == old(self).pending()
                    &&& says_exists(error, StoredCommit::key_of(record@))
                },
            },
    {
        let noted = record.duplicate();
        match self.commits.assert_record(record) {
            Ok(()) => {},
            Err(error) => return Err(Error::Engine(error)),
        }
        self.note(StoreWrite::AssertCommit(noted));
        Ok(())
    }

    /// Records a push, and its commits one after the other.
    fn record_push(&mut self, observation: PushObservation) -> (result: Result<
        EventRecorded,
    >)
        requires
            old(self).well_formed(),
            ledger::has_room(old(self)@.events),
        ensures
            final(self).well_formed(),
            final(self)@ == ledger::observed(old(self)@, observation@),
            final(self).pending() == old(self).pending() + ledger::observation_writes(
                old(self)@,
                observation@,
            ),
            match result {
                Ok(recorded) => {
                    &&& ledger::admitted_commits(old(self)@, observation@)
                        == observation@.commits.len()
                    &&& recorded@ == ledger::next_sequence(old(self)@.events)
                },
                Err(error) => {
                    let count = ledger::admitted_commits(old(self)@, observation@);
                    let commits = ledger::observed_commits(
                        observation@,
                        ledger::next_sequence(old(self)@.events),
                    );
                    &&& count < commits.len()
                    &&& says_exists(error, StoredCommit::key_of(commits[count as int]))
                },
            },
    {
        let ghost before = *self;
        let ghost observed = observation@;
        let ghost all = ledger::observed_commits(
            observed,
            ledger::next_sequence(before@.events),
        );
        let PushObservation { notification, commits } = observation;
        let repository_name = notification.repository_name.duplicate();
        let received_at = notification.received_at.duplicate();
        let recorded = self.record_hook_notification(notification)?;
        let ghost noted = *self;
        assert(all.take(0) =~= Seq::empty());
        assert(noted.pending() + ledger::commit_writes(all.take(0)) =~= noted.pending());
        for commit in it: commits
            invariant
                before == *old(self),
                observed == observation@,
                self.well_formed(),
                model::models(it.seq()) == observed.commits,
                all == ledger::observed_commits(observed, ledger::next_sequence(before@.events)),
                repository_name@ == observed.notification.repository_name,
                received_at@ == observed.notification.received_at,
                recorded@ == ledger::next_sequence(before@.events),
                noted@ == ledger::notified(before@, observed.notification),
                noted.pending() == before.pending() + ledger::notification_writes(
                    before@,
                    observed.notification,
                ),
                table::admitted::<StoredCommit>(before@.commits, all.take(it.index()))
                    == it.index(),
                self@ == (LedgerState {
                    commits: table::asserted_all::<StoredCommit>(
                        before@.commits,
                        all.take(it.index()),
                    ),
                    ..noted@
                }),
                self.pending() == noted.pending() + ledger::commit_writes(all.take(it.index())),
        {
            let ghost count = it.index();
            let ghost earlier = self.pending();
            proof {
                assert(commit == it.seq()[count]);
                assert(model::models(it.seq())[count] == commit@);
                assert(all.take(count + 1).drop_last() =~= all.take(count));
                assert(all[count] == ledger::observed_commit(observed, recorded@, commit@));
            }
            let record = StoredCommit {
                repository_name: repository_name.duplicate(),
                received_at: received_at.duplicate(),
                sequence: recorded.sequence,
                commit,
            };
            assert(record@ == all[count]);
            match self.record_commit(record) {
                Ok(()) => {
                    assert(noted.pending() + ledger::commit_writes(all.take(count + 1)) =~= (
                    noted.pending() + ledger::commit_writes(all.take(count))).push(
                        StoreWriteModel::AssertCommit(all[count]),
                    ));
                },
                Err(error) => {
                    proof {
                        table::lemma_admitted::<StoredCommit>(before@.commits, all, count + 1);
                        assert(ledger::admitted_commits(before@, observed) == count);
                        assert(self.pending() =~= before.pending() + ledger::observation_writes(
                            before@,
                            observed,
                        ));
                    }
                    return Err(error);
                },
            }
        }
        proof {
            assert(all.take(all.len() as int) =~= all);
            assert(self.pending() =~= before.pending() + ledger::observation_writes(
                before@,
                observed,
            ));
        }
        Ok(recorded)
    }

    /// Records a push and its commits, which share the next sequence number. The
    /// first commit whose key is taken ends the recording; what was stored before
    /// it stays.
    pub fn record_push_observation(&mut self, observation: PushObservation) -> (result: Result<
        EventRecorded,
    >)
        requires
            old(self).well_formed(),
            ledger::has_room(old(self)@.events),
        ensures
            final(self).well_formed(),
            final(self)@ == ledger::observed(old(self)@, observation@),
            final(self).pending() == old(self).pending() + ledger::observation_writes(
                old(self)@,
                observation@,
            ),
            match result {
                Ok(recorded) => {
                    &&& ledger::admitted_commits(old(self)@, observation@)
                        == observation@.commits.len()
                    &&& recorded@ == ledger::next_sequence(old(self)@.events)
                },
                Err(error) => {
                    let count = ledger::admitted_commits(old(self)@, observation@);
                    let commits = ledger::observed_commits(
                        observation@,
                        ledger::next_sequence(old(self)@.events),
                    );
                    &&& count < commits.len()
                    &&& says_exists(error, StoredCommit::key_of(commits[count as int]))
                },
            },
            final(self)@.events.drop_last() == old(self)@.events,
            final(self)@.events.last().notification == observation@.notification,
            result matches Ok(recorded) ==> {
                &&& recorded.sequence@ == final(self)@.events.last().sequence
                &&& final(self)@.commits.len() == old(self)@.commits.len()
                    + observation.commits@.len()
                &&& forall|i: int|
                    0 <= i < observation.commits@.len() ==> final(self)@.commits.contains(
                        StoredCommitModel {
                            repository_name: observation.notification.repository_name@,
                            received_at: observation.notification.received_at@,
                            sequence: recorded.sequence@,
                            commit: (#[trigger] observation.commits@[i])@,
                        },
                    )
            },
            result is Err ==> final(self)@.commits.len() < old(self)@.commits.len()
                + observation.commits@.len(),
            result matches Err(error) ==> (error matches Error::Engine(
                EngineError::RecordExists { key },
            ) && exists|k: int|
                0 <= k < final(self)@.commits.len() && StoredCommit::key_of(
                    #[trigger] final(self)@.commits[k],
                ) == key@),
            forall|commit: StoredCommitModel| #[trigger]
                old(self)@.commits.contains(commit) ==> final(self)@.commits.contains(commit),
            final(self)@.registrations == old(self)@.registrations,
            final(self)@.spool_directory_policy == old(self)@.spool_directory_policy,
            final(self)@.mirror_policies == old(self)@.mirror_policies,
    {
        let ghost before = *self;
        let ghost observed = observation@;
        proof {
            before.lemma_well_formed();
            ledger::lemma_notification_kept_whole(before@, observed.notification);
            ledger::lemma_push_kept_whole(before@, observed);
            lemma_commits_kept(before@, observed);
        }
        let result = self.record_push(observation);
        assert(result is Ok ==> forall|i: int|
            0 <= i < observation.commits@.len() ==> observed.commits[i] == (
            #[trigger] observation.commits@[i])@);
        result
    }

    /// Puts a repository in the catalog, or changes its entry, and lists the
    /// catalog.
    pub fn register_repository(&mut self, registration: Registration) -> (result: Result<
        CatalogListing,
    >)
        requires
            old(self).well_formed(),
        ensures
            final(self).well_formed(),
            final(self)@ == ledger::registered(old(self)@, registration@),
            final(self).pending() == old(self).pending() + ledger::registration_writes(
                old(self)@,
                registration@,
            ),
            result matches Ok(listing) && listing@ == final(self)@.registrations,
            forall|other: RegistrationModel| #[trigger]
                final(self)@.registrations.contains(other) <==> (other == registration@ || (old(
                    self,
                )@.registrations.contains(other) && other.repository_name
                    != registration@.repository_name)),
            final(self)@ == (LedgerState {
                registrations: final(self)@.registrations,
                ..old(self)@
            }),
    {
        let ghost before = *self;
        proof {
            before.lemma_well_formed();
            ledger::lemma_registered(before@, registration@);
            ledger::lemma_single_write(
                before@,
                StoreWriteModel::MutateRegistration(registration@),
            );
            ledger::lemma_single_write(
                before@,
                StoreWriteModel::AssertRegistration(registration@),
            );
        }
        let record = StoredRegistration { registration };
        match self.registrations.mutate_record(record.duplicate()) {
            Ok(()) => {
                self.note(StoreWrite::MutateRegistration(record));
            },
            Err(EngineError::RecordNotFound { .. }) => {
                let noted = record.duplicate();
                match self.registrations.assert_record(record) {
                    Ok(()) => {},
                    Err(error) => return Err(Error::Engine(error)),
                }
                self.note(StoreWrite::AssertRegistration(noted));
            },
            Err(error) => return Err(Error::Engine(error)),
        }
        assert(self.pending() =~= before.pending() + ledger::registration_writes(
            before@,
            registration@,
        ));
        self.repository_catalog()
    }

    /// Takes a repository out of the catalog.
    pub fn retire_repository(&mut self, request: Retirement) -> (result: Result<Retired>)
        requires
            old(self).well_formed(),
        ensures
            final(self).well_formed(),
            final(self)@ == ledger::retired(old(self)@, request@.repository_name),
            final(self).pending() == old(self).pending() + ledger::retirement_writes(
                old(self)@,
                request@.repository_name,
            ),
            match result {
                Ok(retired) => {
                    &&& table::holds::<StoredRegistration>(
                        old(self)@.registrations,
                        request@.repository_name,
                    )
                    &&& retired@.repository_name == request@.repository_name
                },
                Err(error) => {
                    &&& !table::holds::<StoredRegistration>(
                        old(self)@.registrations,
                        request@.repository_name,
                    )
                    &&& says_missing(error, request@.repository_name)
                },
            },
            result is Ok <==> exists|i: int|
                0 <= i < old(self)@.registrations.len() && (#[trigger] old(
                    self,
                )@.registrations[i]).repository_name == request@.repository_name,
            result matches Err(error) ==> (error matches Error::Engine(
                EngineError::RecordNotFound { key },
            ) && key@ == request@.repository_name),
            forall|other: RegistrationModel| #[trigger]
                final(self)@.registrations.contains(other) <==> (old(
                    self,
                )@.registrations.contains(other) && other.repository_name
                    != request@.repository_name),
            final(self)@ == (LedgerState {
                registrations: final(self)@.registrations,
                ..old(self)@
            }),
    {
        let ghost before = *self;
        proof {
            before.lemma_well_formed();
            ledger::lemma_retired(before@, request@.repository_name);
            lemma_catalog_holds(before@.registrations, request@.repository_name);
            ledger::lemma_single_write(
                before@,
                StoreWriteModel::RetractRegistration(request@.repository_name),
            );
        }
        let key = RecordKey::new(request.repository_name.as_str());
        match self.registrations.retract_record(key) {
            Ok(()) => {},
            Err(error) => {
                assert(self.pending() =~= before.pending() + ledger::retirement_writes(
                    before@,
                    request@.repository_name,
                ));
                return Err(Error::Engine(error));
            },
        }
        self.note(StoreWrite::RetractRegistration(request.repository_name.duplicate()));
        assert(self.pending() =~= before.pending() + ledger::retirement_writes(
            before@,
            request@.repository_name,
        ));
        Ok(Retired { repository_name: request.repository_name })
    }

    /// Sets where the receive hook leaves files that it could not submit.
    pub fn set_spool_directory_policy(&mut self, policy: SpoolDirectoryPolicy) -> (result: Result<
        SpoolDirectoryPolicySet,
    >)
        requires
            old(self).well_formed(),
        ensures
            final(self).well_formed(),
            final(self)@ == ledger::spool_policy_set(old(self)@, policy@),
            final(self).pending() == old(self).pending() + ledger::spool_policy_writes(
                old(self)@,
                policy@,
            ),
            result matches Ok(set) && set@.path == policy@.path,
            final(self)@ == (LedgerState { spool_directory_policy: seq![policy@], ..old(self)@ }),
    {
        let ghost before = *self;
        proof {
            before.lemma_well_formed();
            ledger::lemma_spool_policy_set(before@, policy@);
            ledger::lemma_single_write(
                before@,
                StoreWriteModel::MutateSpoolDirectoryPolicy(policy@),
            );
            ledger::lemma_single_write(
                before@,
                StoreWriteModel::AssertSpoolDirectoryPolicy(policy@),
            );
        }
        let record = StoredSpoolDirectoryPolicy { policy: policy.duplicate() };
        match self.spool_directory_policy.mutate_record(record.duplicate()) {
            Ok(()) => {
                self.note(StoreWrite::MutateSpoolDirectoryPolicy(record));
            },
            Err(EngineError::RecordNotFound { .. }) => {
                let noted = record.duplicate();
                match self.spool_directory_policy.assert_record(record) {
                    Ok(()) => {},
                    Err(error) => return Err(Error::Engine(error)),
                }
                self.note(StoreWrite::AssertSpoolDirectoryPolicy(noted));
            },
            Err(error) => return Err(Error::Engine(error)),
        }
        assert(self.pending() =~= before.pending() + ledger::spool_policy_writes(
            before@,
            policy@,
        ));
        Ok(SpoolDirectoryPolicySet { path: policy.path })
    }

    /// Sets where a repository is mirrored to.
    pub fn set_mirror_policy(&mut self, policy: MirrorPolicy) -> (result: Result<MirrorPolicySet>)
        requires
            old(self).well_formed(),
        ensures
            final(self).well_formed(),
            final(self)@ == ledger::mirror_policy_set(old(self)@, policy@),
            final(self).pending() == old(self).pending() + ledger::mirror_policy_writes(
                old(self)@,
                policy@,
            ),
            result matches Ok(set) && set@.repository_name == policy@.repository_name && set@.target
                == policy@.target,
            forall|other: MirrorPolicyModel| #[trigger]
                final(self)@.mirror_policies.contains(other) <==> (other == policy@ || (old(
                    self,
                )@.mirror_policies.contains(other) && other.repository_name
                    != policy@.repository_name)),
            final(self)@ == (LedgerState {
                mirror_policies: final(self)@.mirror_policies,
                ..old(self)@
            }),
    {
        let ghost before = *self;
        proof {
            before.lemma_well_formed();
            ledger::lemma_mirror_policy_set(before@, policy@);
            ledger::lemma_single_write(before@, StoreWriteModel::MutateMirrorPolicy(policy@));
            ledger::lemma_single_write(before@, StoreWriteModel::AssertMirrorPolicy(policy@));
        }
        let record = StoredMirrorPolicy { policy: policy.duplicate() };
        match self.mirror_policies.mutate_record(record.duplicate()) {
            Ok(()) => {
                self.note(StoreWrite::MutateMirrorPolicy(record));
            },
            Err(EngineError::RecordNotFound { .. }) => {
                let noted = record.duplicate();
                match self.mirror_policies.assert_record(record) {
                    Ok(()) => {},
                    Err(error) => return Err(Error::Engine(error)),
                }
                self.note(StoreWrite::AssertMirrorPolicy(noted));
            },
            Err(error) => return Err(Error::Engine(error)),
        }
        assert(self.pending() =~= before.pending() + ledger::mirror_policy_writes(
            before@,
            policy@,
        ));
        Ok(MirrorPolicySet { repository_name: policy.repository_name, target: policy.target })
    }

    /// Removes the oldest events, and tells how many. Commits and policies stay.
    pub fn compact_history(&mut self, retention: LedgerHistoryRetention) -> (result: Result<usize>)
        requires
            old(self).well_formed(),
        ensures
            final(self).well_formed(),
            final(self)@ == ledger::compacted(old(self)@, retention@),
            final(self).pending() == old(self).pending() + ledger::retraction_writes(
                old(self)@.events.take(ledger::surplus_events(old(self)@, retention@)),
            ),
            result matches Ok(removed) && removed == ledger::surplus_events(
                old(self)@,
                retention@,
            ),
            result matches Ok(removed) && {
                &&& removed == old(self)@.events.len() - final(self)@.events.len()
                &&& final(self)@.events == old(self)@.events.skip(removed as int)
                &&& old(self)@.events.len() <= retention@ ==> removed == 0
                &&& 0 < retention@ < old(self)@.events.len() ==> final(self)@.events.len()
                    == retention@
                &&& retention@ == 0 && old(self)@.events.len() > 0 ==> final(self)@.events.len()
                    == 1
                &&& final(self).pending().len() == old(self).pending().len() + removed
                &&& forall|i: int|
                    0 <= i < removed ==> final(self).pending()[old(self).pending().len() + i]
                        == StoreWriteModel::RetractEvent((#[trigger] old(self)@.events[i]).sequence)
            },
            final(self)@ == (LedgerState { events: final(self)@.events, ..old(self)@ }),
    {
        let ghost before = *self;
        proof {
            ledger::lemma_compaction_keeps_newest(before@, retention@);
        }
        let kept: u64 = if retention.retained == 0 {
            1
        } else {
            retention.retained
        };
        let count: usize = self.events.records().len();
        assert(self@.events.len() == count);
        let surplus: usize = if count as u64 <= kept {
            0
        } else {
            count - kept as usize
        };
        let removed = self.events.take_first(surplus);
        let ghost gone = before@.events.take(surplus as int);
        assert(before.pending() + ledger::retraction_writes(gone.take(0)) =~= before.pending());
        for record in it: removed
            invariant
                self.well_formed(),
                model::models(it.seq()) == gone,
                self@ == ledger::compacted(before@, retention@),
                self.pending() == before.pending() + ledger::retraction_writes(
                    gone.take(it.index()),
                ),
        {
            let ghost done = it.index();
            proof {
                assert(record == it.seq()[done]);
                assert(model::models(it.seq())[done] == record@);
            }
            self.note(StoreWrite::RetractEvent(record.sequence));
            assert((before.pending() + ledger::retraction_writes(gone.take(done))).push(
                StoreWriteModel::RetractEvent(gone[done].sequence),
            ) =~= before.pending() + ledger::retraction_writes(gone.take(done + 1)));
        }
        assert(gone.take(gone.len() as int) =~= gone);
        Ok(surplus)
    }

    /// Lists events.
    pub fn repository_events(&self, query: Events) -> (result: Result<EventListing>)
        ensures
            result matches Ok(listing) && listing@ == queries::events_answer(self@.events, query@),
    {
        Ok(answer_events(self.events.records(), &query))
    }

    /// Lists the repositories that were pushed to.
    pub fn recent_repositories(&self, query: RecentRepositories) -> (result: Result<
        RecentRepositoriesListing,
    >)
        ensures
            result matches Ok(listing) && listing@ == queries::recent_answer(self@.events, query@),
    {
        Ok(answer_recent(self.events.records(), &query))
    }

    /// Lists file changes.
    pub fn changed_files(&self, query: ChangedFiles) -> (result: Result<ChangedFileListing>)
        ensures
            result matches Ok(listing) && listing@ == queries::files_answer(self@.commits, query@),
    {
        Ok(answer_files(self.commits.records(), &query))
    }

    /// Searches commit messages.
    pub fn commit_messages(&self, query: CommitMessages) -> (result: Result<CommitListing>)
        ensures
            result matches Ok(listing) && listing@ == queries::commits_answer(
                self@.commits,
                query@,
            ),
    {
        Ok(answer_commits(self.commits.records(), &query))
    }

    /// Lists the catalog, in the order of the names.
    pub fn repository_catalog(&self) -> (result: Result<CatalogListing>)
        ensures
            result matches Ok(listing) && listing@ == self@.registrations,
    {
        Ok(answer_catalog(self.registrations.records()))
    }

    /// Answers a query.
    pub fn execute_query(&self, query: Query) -> (result: Result<QueryResult>)
        ensures
            result matches Ok(answer) && answer@ == query_answer(self@, query@),
    {
        match query {
            Query::Events(query) => Ok(QueryResult::Events(self.repository_events(query)?)),
            Query::RecentRepositories(query) => Ok(
                QueryResult::RecentRepositories(self.recent_repositories(query)?),
            ),
            Query::ChangedFiles(query) => Ok(QueryResult::ChangedFiles(self.changed_files(query)?)),
            Query::CommitMessages(query) => Ok(QueryResult::Commits(self.commit_messages(query)?)),
            Query::Catalog(_) => Ok(QueryResult::Catalog(self.repository_catalog()?)),
        }
    }
}

/// Each listing of the store is the answer to the query it was asked, from the records
/// that the store holds; the catalog lists what is registered.
pub proof fn lemma_store_answers(
    store: &Store,
    events: Events,
    recent: RecentRepositories,
    files: ChangedFiles,
    commits: CommitMessages,
    listed_events: Result<EventListing>,
    listed_recent: Result<RecentRepositoriesListing>,
    listed_files: Result<ChangedFileListing>,
    listed_commits: Result<CommitListing>,
    listed_catalog: Result<CatalogListing>,
)
    requires
        call_ensures(Store::repository_events, (store, events), listed_events),
        call_ensures(Store::recent_repositories, (store, recent), listed_recent),
        call_ensures(Store::changed_files, (store, files), listed_files),
        call_ensures(Store::commit_messages, (store, commits), listed_commits),
        call_ensures(Store::repository_catalog, (store,), listed_catalog),
    ensures
        listed_events matches Ok(listing) && listing@ == queries::events_answer(
            store@.events,
            events@,
        ),
        listed_recent matches Ok(listing) && listing@ == queries::recent_answer(
            store@.events,
            recent@,
        ),
        listed_files matches Ok(listing) && listing@ == queries::files_answer(
            store@.commits,
            files@,
        ),
        listed_commits matches Ok(listing) && listing@ == queries::commits_answer(
            store@.commits,
            commits@,
        ),
        listed_catalog matches Ok(listing) && listing@ == store@.registrations,
{
}

/// Recording a notification adds one event that says, field by field, what the
/// notification says, and leaves the same event to write.
pub proof fn lemma_notification_stored(
    store: &mut Store,
    notification: ReceiveHookNotification,
    result: Result<EventRecorded>,
)
    requires
        call_ensures(Store::record_hook_notification, (store, notification), result),
    ensures
        final(store)@.events.drop_last() == old(store)@.events,
        final(store)@.events.len() == old(store)@.events.len() + 1,
        result matches Ok(recorded) && recorded.sequence@ == final(store)@.events.last().sequence,
        old(store)@.events.len() == 0 ==> final(store)@.events.last().sequence == 1,
        old(store)@.events.len() > 0 ==> final(store)@.events.last().sequence == old(
            store,
        )@.events.last().sequence + 1,
        ({
            let kept = final(store)@.events.last().notification;
            &&& kept.repository_name == notification.repository_name@
            &&& kept.gitolite_user == notification.gitolite_user@
            &&& kept.received_at == notification.received_at@
            &&& kept.daemon_socket_present == notification.daemon_socket_present
            &&& kept.ref_updates.len() == notification.ref_updates@.len()
            &&& forall|i: int|
                0 <= i < notification.ref_updates@.len() ==> {
                    let given = #[trigger] notification.ref_updates@[i];
                    &&& kept.ref_updates[i].old_object_identifier == given.old_object_identifier@
                    &&& kept.ref_updates[i].new_object_identifier == given.new_object_identifier@
                    &&& kept.ref_updates[i].ref_name == given.ref_name@
                }
        }),
        final(store)@.commits == old(store)@.commits,
        final(store)@.registrations == old(store)@.registrations,
        final(store)@.spool_directory_policy == old(store)@.spool_directory_policy,
        final(store)@.mirror_policies == old(store)@.mirror_policies,
        final(store).pending() == old(store).pending().push(
            StoreWriteModel::AssertEvent(final(store)@.events.last()),
        ),
{
    assert(final(store)@.events.last().notification == notification@);
}

/// Recording a push adds its event and, unless a key is taken, each of its commits as
/// it was given, with the repository, the time and the number of the push.
pub proof fn lemma_push_stored(
    store: &mut Store,
    observation: PushObservation,
    result: Result<EventRecorded>,
)
    requires
        call_ensures(Store::record_push_observation, (store, observation), result),
    ensures
        final(store)@.events.drop_last() == old(store)@.events,
        final(store)@.events.last().notification == observation.notification@,
        result matches Ok(recorded) ==> {
            &&& recorded.sequence@ == final(store)@.events.last().sequence
            &&& final(store)@.commits.len() == old(store)@.commits.len()
                + observation.commits@.len()
            &&& forall|i: int|
                0 <= i < observation.commits@.len() ==> final(store)@.commits.contains(
                    StoredCommitModel {
                        repository_name: observation.notification.repository_name@,
                        received_at: observation.notification.received_at@,
                        sequence: recorded.sequence@,
                        commit: (#[trigger] observation.commits@[i])@,
                    },
                )
        },
        result matches Err(error) ==> {
            &&& error matches Error::Engine(EngineError::RecordExists { .. })
            &&& final(store)@.commits.len() < old(store)@.commits.len()
                + observation.commits@.len()
        },
        forall|commit: StoredCommitModel| #[trigger]
            old(store)@.commits.contains(commit) ==> final(store)@.commits.contains(commit),
        final(store)@.registrations == old(store)@.registrations,
        final(store)@.spool_directory_policy == old(store)@.spool_directory_policy,
        final(store)@.mirror_policies == old(store)@.mirror_policies,
{
}

/// Registering a repository leaves its registration, every other one, and no other of
/// its name, and lists the catalog as it then is.
pub proof fn lemma_registration_stored(
    store: &mut Store,
    registration: Registration,
    result: Result<CatalogListing>,
)
    requires
        call_ensures(Store::register_repository, (store, registration), result),
    ensures
        forall|other: RegistrationModel| #[trigger]
            final(store)@.registrations.contains(other) <==> ((other.repository_name
                == registration.repository_name@ && other.repository_class
                == registration.repository_class) || (old(store)@.registrations.contains(other)
                && other.repository_name != registration.repository_name@)),
        final(store)@.events == old(store)@.events,
        final(store)@.commits == old(store)@.commits,
        final(store)@.spool_directory_policy == old(store)@.spool_directory_policy,
        final(store)@.mirror_policies == old(store)@.mirror_policies,
        result matches Ok(listing) && listing@ == final(store)@.registrations,
{
    assert forall|other: RegistrationModel| #[trigger]
        final(store)@.registrations.contains(other) <==> ((other.repository_name
            == registration.repository_name@ && other.repository_class
            == registration.repository_class) || (old(store)@.registrations.contains(other)
            && other.repository_name != registration.repository_name@)) by {
        assert((other == registration@) == (other.repository_name == registration.repository_name@
            && other.repository_class == registration.repository_class));
    }
}

/// Retiring a repository takes it, and it alone, out of the catalog; where it is not
/// there, nothing changes and the error names it.
pub proof fn lemma_retirement_stored(
    store: &mut Store,
    request: Retirement,
    result: Result<Retired>,
)
    requires
        call_ensures(Store::retire_repository, (store, request), result),
    ensures
        result is Ok <==> exists|i: int|
            0 <= i < old(store)@.registrations.len() && (#[trigger] old(
                store,
            )@.registrations[i]).repository_name == request.repository_name@,
        result matches Ok(retired) ==> retired.repository_name@ == request.repository_name@,
        result matches Err(error) ==> (error matches Error::Engine(
            EngineError::RecordNotFound { key },
        ) && key@ == request.repository_name@),
        forall|other: RegistrationModel| #[trigger]
            final(store)@.registrations.contains(other) <==> (old(store)@.registrations.contains(
                other,
            ) && other.repository_name != request.repository_name@),
        final(store)@.events == old(store)@.events,
        final(store)@.commits == old(store)@.commits,
        final(store)@.spool_directory_policy == old(store)@.spool_directory_policy,
        final(store)@.mirror_policies == old(store)@.mirror_policies,
{
}

/// A spool policy that is set is the only one afterwards, and is confirmed with its
/// path.
pub proof fn lemma_spool_policy_stored(
    store: &mut Store,
    policy: SpoolDirectoryPolicy,
    result: Result<SpoolDirectoryPolicySet>,
)
    requires
        call_ensures(Store::set_spool_directory_policy, (store, policy), result),
    ensures
        final(store)@.spool_directory_policy.len() == 1,
        final(store)@.spool_directory_policy[0].path == policy.path@,
        result matches Ok(set) && set.path@ == policy.path@,
        final(store)@.events == old(store)@.events,
        final(store)@.commits == old(store)@.commits,
        final(store)@.registrations == old(store)@.registrations,
        final(store)@.mirror_policies == old(store)@.mirror_policies,
{
}

/// A mirror policy that is set is the only one of its repository afterwards, leaves
/// those of other repositories, and is confirmed with what it says.
pub proof fn lemma_mirror_policy_stored(
    store: &mut Store,
    policy: MirrorPolicy,
    result: Result<MirrorPolicySet>,
)
    requires
        call_ensures(Store::set_mirror_policy, (store, policy), result),
    ensures
        forall|other: MirrorPolicyModel| #[trigger]
            final(store)@.mirror_policies.contains(other) <==> ((other.repository_name
                == policy.repository_name@ && other.target == policy.target@) || (old(
                store,
            )@.mirror_policies.contains(other) && other.repository_name
                != policy.repository_name@)),
        result matches Ok(set) && set.repository_name@ == policy.repository_name@ && set.target@
            == policy.target@,
        final(store)@.events == old(store)@.events,
        final(store)@.commits == old(store)@.commits,
        final(store)@.registrations == old(store)@.registrations,
        final(store)@.spool_directory_policy == old(store)@.spool_directory_policy,
{
    assert forall|other: MirrorPolicyModel| #[trigger]
        final(store)@.mirror_policies.contains(other) <==> ((other.repository_name
            == policy.repository_name@ && other.target == policy.target@) || (old(
            store,
        )@.mirror_policies.contains(other) && other.repository_name != policy.repository_name@)) by {
        assert((other =~= policy@) == (other.repository_name == policy.repository_name@
            && other.target == policy.target@));
    }
}

/// Compacting the history removes its oldest events alone, tells how many, and leaves
/// as many of the newest as asked for, or the newest where none is asked for.
pub proof fn lemma_history_compacted(
    store: &mut Store,
    retention: LedgerHistoryRetention,
    result: Result<usize>,
)
    requires
        call_ensures(Store::compact_history, (store, retention), result),
    ensures
        result matches Ok(removed) && {
            &&& removed == old(store)@.events.len() - final(store)@.events.len()
            &&& forall|i: int|
                0 <= i < final(store)@.events.len() ==> #[trigger] final(store)@.events[i] == old(
                    store,
                )@.events[removed + i]
            &&& old(store)@.events.len() <= retention@ ==> removed == 0
            &&& 0 < retention@ < old(store)@.events.len() ==> final(store)@.events.len()
                == retention@
            &&& retention@ == 0 && old(store)@.events.len() > 0 ==> final(store)@.events.len() == 1
        },
        final(store)@.commits == old(store)@.commits,
        final(store)@.registrations == old(store)@.registrations,
        final(store)@.spool_directory_policy == old(store)@.spool_directory_policy,
        final(store)@.mirror_policies == old(store)@.mirror_policies,
{
}

/// A store opens on every snapshot in which no table holds a key twice, holds what the
/// snapshot holds, and leaves nothing to write; every other snapshot is refused.
pub proof fn lemma_store_opened(snapshot: StoreSnapshot, result: Result<Store>)
    requires
        call_ensures(Store::open, (snapshot,), result),
    ensures
        result matches Ok(store) ==> {
            &&& store@.events.to_multiset() == model::models(snapshot.events@).to_multiset()
            &&& store@.commits.to_multiset() == model::models(snapshot.commits@).to_multiset()
            &&& store@.registrations.to_multiset() == model::models(
                snapshot.registrations@,
            ).to_multiset()
            &&& store@.spool_directory_policy.to_multiset() == model::models(
                snapshot.spool_directory_policy@,
            ).to_multiset()
            &&& store@.mirror_policies.to_multiset() == model::models(
                snapshot.mirror_policies@,
            ).to_multiset()
            &&& store.pending().len() == 0
            &&& store.well_formed()
        },
        result is Err ==> snapshot_fault(snapshot@) is Some,
        result matches Err(error) ==> error matches Error::Engine(
            EngineError::RecordExists { .. },
        ),
{
    lemma_opened(snapshot@);
}

/// Writes are handed over once, all of them and in order, and what the store holds
/// does not change.
pub proof fn lemma_writes_handed_over(store: &mut Store, taken: Vec<StoreWrite>)
    requires
        call_ensures(Store::take_writes, (store,), taken),
    ensures
        final(store)@ == old(store)@,
        final(store).pending().len() == 0,
        model::models(taken@) == old(store).pending(),
{
}

} // verus!
