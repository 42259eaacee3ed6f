//! Answers: what each query selects from the stored records, and in which order.
use vstd::prelude::*;

use crate::contract::{
    CatalogListing, ChangedFile, ChangedFileListing, ChangedFileModel, ChangedFiles,
    ChangedFilesModel, Commit, CommitListing, CommitMessages, CommitMessagesModel, CommitModel,
    Event, EventListing, EventModel, Events, EventsModel, FileChangeModel, Name,
    PushObservationModel, QueryLimit, ReceiveHookNotificationModel, RecentRepositories,
    RecentRepositoriesListing, RecentRepositoriesModel, RecentRepository, RecentRepositoryModel,
    Registration, Timestamp,
};
use crate::ledger;
use crate::ledger::LedgerState;
use crate::model;
use crate::model::{duplicate_optional, Duplicate};
use crate::order;
use crate::order::{sort_ranked, Ranked};
use crate::records;
use crate::records::{EngineRecord, StoredCommit, StoredCommitModel, StoredEvent, StoredRegistration};
use crate::table;
use crate::text;
use crate::text::contains_case_insensitive;

verus! {

/// At most the first `limit` items.
pub open spec fn limited<T>(items: Seq<T>, limit: u64) -> Seq<T> {
    if items.len() <= limit {
        items
    } else {
        items.take(limit as int)
    }
}

/// Drops what stands behind the first `limit` items.
fn limit_to<T: View>(items: &mut Vec<T>, limit: QueryLimit)
    ensures
        model::models(final(items)@) == limited(model::models(old(items)@), limit@),
{
    let count: u64 = limit.into_u64();
    if items.len() as u64 > count {
        items.truncate(count as usize);
        assert(model::models(items@) =~= limited(model::models(old(items)@), count));
    }
}

/// Whether an event was recorded for the repository and after the sequence
/// number that the query names; what it leaves open does not matter.
pub open spec fn event_selected(event: EventModel, query: EventsModel) -> bool {
    &&& query.repository_name matches Some(name) ==> event.notification.repository_name == name
    &&& query.since_sequence matches Some(since) ==> event.sequence > since
}

/// The answer to [`Events`]: the selected events in the order they were
/// recorded, as many as asked for.
pub open spec fn events_answer(events: Seq<EventModel>, query: EventsModel) -> Seq<EventModel> {
    limited(events.filter(|event: EventModel| event_selected(event, query)), query.limit)
}

/// Selects events, which come in the order of their sequence numbers.
pub fn answer_events(events: &Vec<StoredEvent>, query: &Events) -> (listing: EventListing)
    ensures
        listing@ == events_answer(model::models(events@), query@),
{
    broadcast use Seq::lemma_filter_push;
    let ghost all = model::models(events@);
    let ghost selected = |event: EventModel| event_selected(event, query@);
    let mut answer: Vec<Event> = Vec::new();
    let mut i: usize = 0;
    assert(all.take(0).filter(selected) =~= Seq::<EventModel>::empty());
    while i < events.len()
        invariant
            i <= events.len(),
            all == model::models(events@),
            selected == (|event: EventModel| event_selected(event, query@)),
            model::models(answer@) == all.take(i as int).filter(selected),
        decreases events.len() - i,
    {
        broadcast use Seq::lemma_filter_push;
        let event = &events[i];
        let in_repository = match &query.repository_name {
            Some(name) => event.notification.repository_name.same(name),
            None => true,
        };
        let recent_enough = match query.since_sequence {
            Some(since) => event.sequence.into_u64() > since.into_u64(),
            None => true,
        };
        assert(all[i as int] == event@);
        assert(all.take(i + 1) =~= all.take(i as int).push(event@));
        if in_repository && recent_enough {
            let ghost before = answer@;
            answer.push(event.duplicate().into_contract());
            assert(model::models(answer@) =~= model::models(before).push(event@));
        }
        i += 1;
    }
    assert(all.take(all.len() as int) =~= all);
    limit_to(&mut answer, query.limit);
    EventListing { events: answer }
}

/// Whether something of `time`, `sequence` and `name` is listed before something
/// else of the same kind: the later first, of one time the higher sequence
/// number first, and then by name.
pub open spec fn listed_before(
    left_time: Seq<char>,
    left_sequence: u64,
    left_name: Seq<char>,
    right_time: Seq<char>,
    right_sequence: u64,
    right_name: Seq<char>,
) -> bool {
    ||| text::text_precedes(right_time, left_time)
    ||| left_time == right_time && left_sequence > right_sequence
    ||| left_time == right_time && left_sequence == right_sequence && text::text_precedes(
        left_name,
        right_name,
    )
}

proof fn lemma_listed_asymmetric(
    left_time: Seq<char>,
    left_sequence: u64,
    left_name: Seq<char>,
    right_time: Seq<char>,
    right_sequence: u64,
    right_name: Seq<char>,
)
    requires
        listed_before(
            left_time,
            left_sequence,
            left_name,
            right_time,
            right_sequence,
            right_name,
        ),
    ensures
        !listed_before(
            right_time,
            right_sequence,
            right_name,
            left_time,
            left_sequence,
            left_name,
        ),
{
    text::lemma_precedes_irreflexive(left_time);
    text::lemma_precedes_irreflexive(left_name);
    if left_time != right_time {
        text::lemma_precedes_total(left_time, right_time);
    }
    if left_name != right_name {
        text::lemma_precedes_total(left_name, right_name);
    }
}

/// Not being before is transitive in a linear order of texts.
proof fn lemma_not_precedes_transitive(a: Seq<char>, b: Seq<char>, c: Seq<char>)
    requires
        !text::text_precedes(b, a),
        !text::text_precedes(c, b),
    ensures
        !text::text_precedes(c, a),
        a == c ==> a == b,
{
    if a != b {
        text::lemma_precedes_total(a, b);
        if text::text_precedes(c, a) {
            text::lemma_precedes_transitive(c, a, b);
        }
    }
}

proof fn lemma_listed_transitive(
    a_time: Seq<char>,
    a_sequence: u64,
    a_name: Seq<char>,
    b_time: Seq<char>,
    b_sequence: u64,
    b_name: Seq<char>,
    c_time: Seq<char>,
    c_sequence: u64,
    c_name: Seq<char>,
)
    requires
        !listed_before(b_time, b_sequence, b_name, a_time, a_sequence, a_name),
        !listed_before(c_time, c_sequence, c_name, b_time, b_sequence, b_name),
    ensures
        !listed_before(c_time, c_sequence, c_name, a_time, a_sequence, a_name),
{
    lemma_not_precedes_transitive(c_time, b_time, a_time);
    if a_time == b_time && b_time == c_time && a_sequence == b_sequence && b_sequence == c_sequence {
        lemma_not_precedes_transitive(a_name, b_name, c_name);
    }
}

/// Decides [`listed_before`].
fn is_listed_before(
    left_time: &str,
    left_sequence: u64,
    left_name: &str,
    right_time: &str,
    right_sequence: u64,
    right_name: &str,
) -> (before: bool)
    ensures
        before == listed_before(
            left_time@,
            left_sequence,
            left_name@,
            right_time@,
            right_sequence,
            right_name@,
        ),
{
    proof {
        text::lemma_precedes_irreflexive(left_time@);
        if left_time@ != right_time@ {
            text::lemma_precedes_total(left_time@, right_time@);
        }
    }
    if text::str_precedes(right_time, left_time) {
        true
    } else if text::str_precedes(left_time, right_time) {
        false
    } else if left_sequence != right_sequence {
        left_sequence > right_sequence
    } else {
        text::str_precedes(left_name, right_name)
    }
}

impl Ranked for Commit {
    /// Commits are listed latest first, then by identifier.
    open spec fn ranks_before(left: CommitModel, right: CommitModel) -> bool {
        listed_before(
            left.received_at,
            left.sequence,
            left.object_identifier,
            right.received_at,
            right.sequence,
            right.object_identifier,
        )
    }

    proof fn rank_asymmetric(a: CommitModel, b: CommitModel) {
        lemma_listed_asymmetric(
            a.received_at,
            a.sequence,
            a.object_identifier,
            b.received_at,
            b.sequence,
            b.object_identifier,
        );
    }

    proof fn rank_transitive(a: CommitModel, b: CommitModel, c: CommitModel) {
        lemma_listed_transitive(
            a.received_at,
            a.sequence,
            a.object_identifier,
            b.received_at,
            b.sequence,
            b.object_identifier,
            c.received_at,
            c.sequence,
            c.object_identifier,
        );
    }

    fn is_before(&self, other: &Self) -> (before: bool) {
        is_listed_before(
            self.received_at.as_str(),
            self.sequence.into_u64(),
            self.object_identifier.as_str(),
            other.received_at.as_str(),
            other.sequence.into_u64(),
            other.object_identifier.as_str(),
        )
    }
}

impl Ranked for ChangedFile {
    /// File changes are listed latest first, then by path.
    open spec fn ranks_before(left: ChangedFileModel, right: ChangedFileModel) -> bool {
        listed_before(
            left.received_at,
            left.sequence,
            left.path,
            right.received_at,
            right.sequence,
            right.path,
        )
    }

    proof fn rank_asymmetric(a: ChangedFileModel, b: ChangedFileModel) {
        lemma_listed_asymmetric(a.received_at, a.sequence, a.path, b.received_at, b.sequence, b.path);
    }

    proof fn rank_transitive(a: ChangedFileModel, b: ChangedFileModel, c: ChangedFileModel) {
        lemma_listed_transitive(
            a.received_at,
            a.sequence,
            a.path,
            b.received_at,
            b.sequence,
            b.path,
            c.received_at,
            c.sequence,
            c.path,
        );
    }

    fn is_before(&self, other: &Self) -> (before: bool) {
        is_listed_before(
            self.received_at.as_str(),
            self.sequence.into_u64(),
            self.path.as_str(),
            other.received_at.as_str(),
            other.sequence.into_u64(),
            other.path.as_str(),
        )
    }
}

impl Ranked for RecentRepository {
    /// Repositories are listed by their latest push, the latest first, then by
    /// name.
    open spec fn ranks_before(left: RecentRepositoryModel, right: RecentRepositoryModel) -> bool {
        listed_before(
            left.latest_received_at,
            left.latest_sequence,
            left.repository_name,
            right.latest_received_at,
            right.latest_sequence,
            right.repository_name,
        )
    }

    proof fn rank_asymmetric(a: RecentRepositoryModel, b: RecentRepositoryModel) {
        lemma_listed_asymmetric(
            a.latest_received_at,
            a.latest_sequence,
            a.repository_name,
            b.latest_received_at,
            b.latest_sequence,
            b.repository_name,
        );
    }

    proof fn rank_transitive(
        a: RecentRepositoryModel,
        b: RecentRepositoryModel,
        c: RecentRepositoryModel,
    ) {
        lemma_listed_transitive(
            a.latest_received_at,
            a.latest_sequence,
            a.repository_name,
            b.latest_received_at,
            b.latest_sequence,
            b.repository_name,
            c.latest_received_at,
            c.latest_sequence,
            c.repository_name,
        );
    }

    fn is_before(&self, other: &Self) -> (before: bool) {
        is_listed_before(
            self.latest_received_at.as_str(),
            self.latest_sequence.into_u64(),
            self.repository_name.as_str(),
            other.latest_received_at.as_str(),
            other.latest_sequence.into_u64(),
            other.repository_name.as_str(),
        )
    }
}

/// Whether a commit belongs to the repository and came in the window that a
/// query names; what it leaves open does not matter.
pub open spec fn commit_in_window(
    commit: StoredCommitModel,
    repository_name: Option<Seq<char>>,
    since_received_at: Option<Seq<char>>,
    until_received_at: Option<Seq<char>>,
) -> bool {
    &&& repository_name matches Some(name) ==> commit.repository_name == name
    &&& since_received_at matches Some(since) ==> !text::text_precedes(commit.received_at, since)
    &&& until_received_at matches Some(until) ==> !text::text_precedes(until, commit.received_at)
}

/// Decides [`commit_in_window`].
pub fn commit_matches_common_filters(
    commit: &StoredCommit,
    repository_name: &Option<Name>,
    since_received_at: &Option<Timestamp>,
    until_received_at: &Option<Timestamp>,
) -> (matches: bool)
    ensures
        matches == commit_in_window(
            commit@,
            model::optional_model(*repository_name),
            model::optional_model(*since_received_at),
            model::optional_model(*until_received_at),
        ),
{
    if let Some(name) = repository_name {
        if !commit.repository_name.same(name) {
            return false;
        }
    }
    if let Some(since) = since_received_at {
        if commit.received_at.precedes(since) {
            return false;
        }
    }
    if let Some(until) = until_received_at {
        if until.precedes(&commit.received_at) {
            return false;
        }
    }
    true
}

/// Whether a text holds the searched text, whatever its case; an absent search
/// is met by every text.
pub open spec fn search_met(content: Seq<char>, search: Option<Seq<char>>) -> bool {
    search matches Some(wanted) ==> text::text_contains_ignoring_case(content, wanted)
}

/// Whether a commit answers a search of commit messages.
pub open spec fn commit_selected(commit: StoredCommitModel, query: CommitMessagesModel) -> bool {
    &&& commit_in_window(
        commit,
        query.repository_name,
        query.since_received_at,
        query.until_received_at,
    )
    &&& search_met(commit.commit.message, query.message_contains)
}

/// The answer to [`CommitMessages`]: the selected commits without their file
/// changes, in listing order, as many as asked for.
pub open spec fn commits_answer(
    commits: Seq<StoredCommitModel>,
    query: CommitMessagesModel,
) -> Seq<CommitModel> {
    limited(
        order::ranked::<Commit>(
            commits.filter(|commit: StoredCommitModel| commit_selected(commit, query)).map_values(
                |commit: StoredCommitModel| records::commit_summary(commit),
            ),
        ),
        query.limit,
    )
}

/// Searches the messages of commits.
pub fn answer_commits(commits: &Vec<StoredCommit>, query: &CommitMessages) -> (listing:
    CommitListing)
    ensures
        listing@ == commits_answer(model::models(commits@), query@),
{
    let ghost all = model::models(commits@);
    let ghost selected = |commit: StoredCommitModel| commit_selected(commit, query@);
    let ghost summary = |commit: StoredCommitModel| records::commit_summary(commit);
    let mut answer: Vec<Commit> = Vec::new();
    let mut i: usize = 0;
    assert(all.take(0).filter(selected) =~= Seq::<StoredCommitModel>::empty());
    assert(model::models(answer@) =~= all.take(0).filter(selected).map_values(summary));
    while i < commits.len()
        invariant
            i <= commits.len(),
            all == model::models(commits@),
            selected == (|commit: StoredCommitModel| commit_selected(commit, query@)),
            summary == (|commit: StoredCommitModel| records::commit_summary(commit)),
            model::models(answer@) == all.take(i as int).filter(selected).map_values(summary),
        decreases commits.len() - i,
    {
        broadcast use Seq::lemma_filter_push;
        let commit = &commits[i];
        let in_window = commit_matches_common_filters(
            commit,
            &query.repository_name,
            &query.since_received_at,
            &query.until_received_at,
        );
        assert(all[i as int] == commit@);
        assert(all.take(i + 1) =~= all.take(i as int).push(commit@));
        if in_window {
            let found = match &query.message_contains {
                Some(search) => contains_case_insensitive(
                    commit.commit.message.as_str(),
                    search.as_str(),
                ),
                None => true,
            };
            if found {
                let ghost before = answer@;
                answer.push(commit.duplicate().into_contract());
                assert(model::models(answer@) =~= model::models(before).push(
                    records::commit_summary(commit@),
                ));
                assert(all.take(i as int).filter(selected).push(commit@).map_values(summary)
                    =~= all.take(i as int).filter(selected).map_values(summary).push(
                    records::commit_summary(commit@),
                ));
            }
        }
        i += 1;
    }
    assert(all.take(all.len() as int) =~= all);
    let mut ordered = sort_ranked(answer);
    limit_to(&mut ordered, query.limit);
    CommitListing { commits: ordered }
}

/// A file change of a commit, as it is listed.
pub open spec fn listed_file(commit: StoredCommitModel, file: FileChangeModel) -> ChangedFileModel {
    ChangedFileModel {
        repository_name: commit.repository_name,
        received_at: commit.received_at,
        sequence: commit.sequence,
        commit_object_identifier: commit.commit.object_identifier,
        ref_name: commit.commit.ref_name,
        status: file.status,
        path: file.path,
        old_path: file.old_path,
    }
}

/// The file changes, in order, whose path meets the search.
pub open spec fn matching_files(
    commit: StoredCommitModel,
    files: Seq<FileChangeModel>,
    search: Option<Seq<char>>,
) -> Seq<ChangedFileModel> {
    files.filter(|file: FileChangeModel| search_met(file.path, search)).map_values(
        |file: FileChangeModel| listed_file(commit, file),
    )
}

/// The selected file changes of the selected commits, commit by commit.
pub open spec fn selected_files(
    commits: Seq<StoredCommitModel>,
    query: ChangedFilesModel,
) -> Seq<ChangedFileModel>
    decreases commits.len(),
{
    if commits.len() == 0 {
        Seq::empty()
    } else {
        let commit = commits.last();
        let earlier = selected_files(commits.drop_last(), query);
        if commit_in_window(
            commit,
            query.repository_name,
            query.since_received_at,
            query.until_received_at,
        ) {
            earlier + matching_files(commit, commit.commit.changed_files, query.path_contains)
        } else {
            earlier
        }
    }
}

/// The answer to [`ChangedFiles`]: the selected file changes in listing order,
/// as many as asked for.
pub open spec fn files_answer(
    commits: Seq<StoredCommitModel>,
    query: ChangedFilesModel,
) -> Seq<ChangedFileModel> {
    limited(order::ranked::<ChangedFile>(selected_files(commits, query)), query.limit)
}

/// Adds the file changes of one commit whose path meets the search.
fn collect_files(
    commit: &StoredCommit,
    query: &ChangedFiles,
    answer: &mut Vec<ChangedFile>,
)
    ensures
        model::models(final(answer)@) == model::models(old(answer)@) + matching_files(
            commit@,
            commit@.commit.changed_files,
            query@.path_contains,
        ),
{
    let files = &commit.commit.changed_files;
    let ghost all = model::models(files@);
    let ghost start = model::models(answer@);
    let ghost wanted = |file: FileChangeModel| search_met(file.path, query@.path_contains);
    let ghost listed = |file: FileChangeModel| listed_file(commit@, file);
    let mut i: usize = 0;
    assert(all.take(0).filter(wanted) =~= Seq::<FileChangeModel>::empty());
    assert(model::models(answer@) =~= start + all.take(0).filter(wanted).map_values(listed));
    while i < files.len()
        invariant
            i <= files.len(),
            *files == commit.commit.changed_files,
            all == model::models(files@),
            wanted == (|file: FileChangeModel| search_met(file.path, query@.path_contains)),
            listed == (|file: FileChangeModel| listed_file(commit@, file)),
            model::models(answer@) == start + all.take(i as int).filter(wanted).map_values(listed),
        decreases files.len() - i,
    {
        broadcast use Seq::lemma_filter_push;
        let file = &files[i];
        let found = match &query.path_contains {
            Some(search) => contains_case_insensitive(file.path.as_str(), search.as_str()),
            None => true,
        };
        assert(all[i as int] == file@);
        assert(all.take(i + 1) =~= all.take(i as int).push(file@));
        if found {
            let ghost before = answer@;
            let changed = ChangedFile {
                repository_name: commit.repository_name.duplicate(),
                received_at: commit.received_at.duplicate(),
                sequence: commit.sequence,
                commit_object_identifier: commit.commit.object_identifier.duplicate(),
                ref_name: commit.commit.ref_name.duplicate(),
                status: file.status.duplicate(),
                path: file.path.duplicate(),
                old_path: duplicate_optional(&file.old_path),
            };
            let ghost added = changed@;
            assert(added == listed_file(commit@, file@));
            answer.push(changed);
            assert(model::models(answer@) =~= model::models(before).push(added));
            assert(start + all.take(i as int).filter(wanted).push(file@).map_values(listed) =~= (start
                + all.take(i as int).filter(wanted).map_values(listed)).push(added));
        }
        i += 1;
    }
    assert(all.take(all.len() as int) =~= all);
}

/// Selects file changes.
pub fn answer_files(commits: &Vec<StoredCommit>, query: &ChangedFiles) -> (listing:
    ChangedFileListing)
    ensures
        listing@ == files_answer(model::models(commits@), query@),
{
    let ghost all = model::models(commits@);
    let mut answer: Vec<ChangedFile> = Vec::new();
    let mut i: usize = 0;
    assert(model::models(answer@) =~= selected_files(all.take(0), query@));
    while i < commits.len()
        invariant
            i <= commits.len(),
            all == model::models(commits@),
            model::models(answer@) == selected_files(all.take(i as int), query@),
        decreases commits.len() - i,
    {
        let commit = &commits[i];
        assert(all[i as int] == commit@);
        assert(all.take(i + 1).drop_last() =~= all.take(i as int));
        assert(all.take(i + 1).last() == commit@);
        if commit_matches_common_filters(
            commit,
            &query.repository_name,
            &query.since_received_at,
            &query.until_received_at,
        ) {
            collect_files(commit, query, &mut answer);
        }
        i += 1;
    }
    assert(all.take(all.len() as int) =~= all);
    let mut ordered = sort_ranked(answer);
    limit_to(&mut ordered, query.limit);
    ChangedFileListing { files: ordered }
}

/// Whether an event came no earlier than the query asks for.
pub open spec fn event_in_window(event: EventModel, query: RecentRepositoriesModel) -> bool {
    query.since_received_at matches Some(since) ==> !text::text_precedes(
        event.notification.received_at,
        since,
    )
}

/// The names of the repositories that the events went to, each once, in the
/// order of their first event.
pub open spec fn pushed_names(events: Seq<EventModel>) -> Seq<Seq<char>>
    decreases events.len(),
{
    if events.len() == 0 {
        Seq::empty()
    } else {
        let earlier = pushed_names(events.drop_last());
        let name = events.last().notification.repository_name;
        if earlier.contains(name) {
            earlier
        } else {
            earlier.push(name)
        }
    }
}

/// The events that went to one repository.
pub open spec fn pushes_to(events: Seq<EventModel>, name: Seq<char>) -> Seq<EventModel> {
    events.filter(|event: EventModel| event.notification.repository_name == name)
}

/// What is listed of a repository that was pushed to: its last event, and how
/// many there were.
pub open spec fn push_summary(events: Seq<EventModel>, name: Seq<char>) -> RecentRepositoryModel {
    let pushes = pushes_to(events, name);
    RecentRepositoryModel {
        repository_name: name,
        latest_received_at: pushes.last().notification.received_at,
        latest_sequence: pushes.last().sequence,
        push_count: pushes.len() as u64,
    }
}

/// The summaries of all repositories that were pushed to.
pub open spec fn push_summaries(events: Seq<EventModel>) -> Seq<RecentRepositoryModel> {
    pushed_names(events).map_values(|name: Seq<char>| push_summary(events, name))
}

/// The answer to [`RecentRepositories`]: the repositories with an event in the
/// window, in listing order, as many as asked for.
pub open spec fn recent_answer(
    events: Seq<EventModel>,
    query: RecentRepositoriesModel,
) -> Seq<RecentRepositoryModel> {
    limited(
        order::ranked::<RecentRepository>(
            push_summaries(events.filter(|event: EventModel| event_in_window(event, query))),
        ),
        query.limit,
    )
}

/// No name is listed twice, and a name is listed exactly when an event went to
/// that repository.
pub proof fn lemma_pushed_names(events: Seq<EventModel>)
    ensures
        pushed_names(events).no_duplicates(),
        pushed_names(events).len() <= events.len(),
        forall|name: Seq<char>| #[trigger]
            pushed_names(events).contains(name) <==> pushes_to(events, name).len() > 0,
    decreases events.len(),
{
    broadcast use Seq::lemma_filter_push;

    if events.len() > 0 {
        let earlier = events.drop_last();
        let last = events.last();
        let added = last.notification.repository_name;
        lemma_pushed_names(earlier);
        assert(events =~= earlier.push(last));
        assert forall|name: Seq<char>| #[trigger] pushed_names(events).contains(name) <==> pushes_to(
            events,
            name,
        ).len() > 0 by {
            assert(pushes_to(events, name) == if name == added {
                pushes_to(earlier, name).push(last)
            } else {
                pushes_to(earlier, name)
            });
            assert(pushed_names(earlier).contains(name) <==> pushes_to(earlier, name).len() > 0);
            if !pushed_names(earlier).contains(added) {
                let names = pushed_names(earlier).push(added);
                if names.contains(name) && name != added {
                    let i = choose|i: int| 0 <= i < names.len() && names[i] == name;
                    assert(pushed_names(earlier)[i] == name);
                }
                if pushed_names(earlier).contains(name) {
                    let i = choose|i: int|
                        0 <= i < pushed_names(earlier).len() && pushed_names(earlier)[i] == name;
                    assert(names[i] == name);
                }
                assert(names[names.len() - 1] == added);
            }
        }
    } else {
        assert forall|name: Seq<char>| #[trigger] pushed_names(events).contains(name) <==> pushes_to(
            events,
            name,
        ).len() > 0 by {
            assert(pushes_to(events, name) =~= Seq::<EventModel>::empty());
        }
    }
}

proof fn lemma_pushes_bounded(events: Seq<EventModel>, name: Seq<char>)
    ensures
        pushes_to(events, name).len() <= events.len(),
{
    events.lemma_filter_len(|event: EventModel| event.notification.repository_name == name);
}

/// How one more event changes the summaries: the summary of its repository
/// alone, where there is one, else a new one at the end.
proof fn lemma_summaries_push(events: Seq<EventModel>, event: EventModel, at: int)
    requires
        0 <= at <= push_summaries(events).len(),
        forall|i: int|
            0 <= i < at ==> (#[trigger] push_summaries(events)[i]).repository_name
                != event.notification.repository_name,
        at < push_summaries(events).len() ==> push_summaries(events)[at].repository_name
            == event.notification.repository_name,
    ensures
        push_summaries(events.push(event)) == if at < push_summaries(events).len() {
            push_summaries(events).update(
                at,
                push_summary(events.push(event), event.notification.repository_name),
            )
        } else {
            push_summaries(events).push(
                push_summary(events.push(event), event.notification.repository_name),
            )
        },
        at < push_summaries(events).len() ==> pushes_to(
            events.push(event),
            event.notification.repository_name,
        ) == pushes_to(events, event.notification.repository_name).push(event),
        at == push_summaries(events).len() ==> pushes_to(
            events.push(event),
            event.notification.repository_name,
        ) == seq![event],
{
    broadcast use Seq::lemma_filter_push;

    let name = event.notification.repository_name;
    let names = pushed_names(events);
    let old_summaries = push_summaries(events);
    let all = events.push(event);
    lemma_pushed_names(events);
    assert(all.drop_last() =~= events);
    assert(all.last() == event);
    assert forall|other: Seq<char>| other != name implies pushes_to(all, other) == #[trigger] pushes_to(
        events,
        other,
    ) by {}
    assert(pushes_to(all, name) == pushes_to(events, name).push(event));
    if at < names.len() {
        assert(old_summaries[at].repository_name == names[at]);
        assert(names.contains(name));
        assert(pushed_names(all) == names);
        assert forall|i: int| 0 <= i < names.len() && i != at implies names[i] != name by {
            assert(old_summaries[i].repository_name == names[i]);
        }
        assert(push_summaries(all) =~= old_summaries.update(at, push_summary(all, name)));
    } else {
        assert forall|i: int| 0 <= i < names.len() implies names[i] != name by {
            assert(old_summaries[i].repository_name == names[i]);
        }
        assert(!names.contains(name));
        assert(pushed_names(all) == names.push(name));
        assert(pushes_to(events, name).len() == 0);
        assert(pushes_to(all, name) =~= seq![event]);
        assert(push_summaries(all) =~= old_summaries.push(push_summary(all, name)));
    }
}

/// The place of the repository among those listed so far, or their number.
fn find_repository(repositories: &Vec<RecentRepository>, name: &Name) -> (at: usize)
    ensures
        at <= repositories@.len(),
        forall|i: int|
            0 <= i < at ==> (#[trigger] model::models(repositories@)[i]).repository_name != name@,
        at < repositories@.len() ==> model::models(repositories@)[at as int].repository_name == name@,
{
    let mut at: usize = 0;
    while at < repositories.len()
        invariant
            at <= repositories@.len(),
            forall|i: int|
                0 <= i < at ==> (#[trigger] model::models(repositories@)[i]).repository_name
                    != name@,
        decreases repositories.len() - at,
    {
        if repositories[at].repository_name.same(name) {
            return at;
        }
        at += 1;
    }
    at
}

/// Counts an event for its repository. Events are counted in the order of their
/// sequence numbers, so the one at hand is the latest.
fn count_push(
    repositories: &mut Vec<RecentRepository>,
    event: &StoredEvent,
    counted: Ghost<Seq<EventModel>>,
)
    requires
        model::models(old(repositories)@) == push_summaries(counted@),
        counted@.len() < u64::MAX,
    ensures
        model::models(final(repositories)@) == push_summaries(counted@.push(event@)),
{
    let name = &event.notification.repository_name;
    let at = find_repository(repositories, name);
    let ghost all = counted@.push(event@);
    let ghost before = repositories@;
    proof {
        lemma_summaries_push(counted@, event@, at as int);
        lemma_pushes_bounded(counted@, name@);
    }
    if at < repositories.len() {
        let count: u64 = repositories[at].push_count.into_u64();
        assert(model::models(before)[at as int] == push_summaries(counted@)[at as int]);
        assert(push_summaries(counted@)[at as int] == push_summary(counted@, name@));
        assert(count == pushes_to(counted@, name@).len());
        let summary = RecentRepository {
            repository_name: name.duplicate(),
            latest_received_at: event.notification.received_at.duplicate(),
            latest_sequence: event.sequence,
            push_count: QueryLimit::new(count + 1),
        };
        assert(summary@ == push_summary(all, name@));
        repositories.set(at, summary);
        assert(model::models(repositories@) =~= model::models(before).update(
            at as int,
            push_summary(all, name@),
        ));
    } else {
        let summary = RecentRepository {
            repository_name: name.duplicate(),
            latest_received_at: event.notification.received_at.duplicate(),
            latest_sequence: event.sequence,
            push_count: QueryLimit::new(1),
        };
        assert(summary@ == push_summary(all, name@));
        repositories.push(summary);
        assert(model::models(repositories@) =~= model::models(before).push(
            push_summary(all, name@),
        ));
    }
}

/// Lists the repositories that were pushed to. The events come in the order of
/// their sequence numbers.
pub fn answer_recent(events: &Vec<StoredEvent>, query: &RecentRepositories) -> (listing:
    RecentRepositoriesListing)
    ensures
        listing@ == recent_answer(model::models(events@), query@),
{
    let ghost all = model::models(events@);
    let ghost in_window = |event: EventModel| event_in_window(event, query@);
    let mut repositories: Vec<RecentRepository> = Vec::new();
    let mut i: usize = 0;
    assert(all.take(0).filter(in_window) =~= Seq::<EventModel>::empty());
    assert(model::models(repositories@) =~= push_summaries(all.take(0).filter(in_window)));
    while i < events.len()
        invariant
            i <= events.len(),
            all == model::models(events@),
            in_window == (|event: EventModel| event_in_window(event, query@)),
            model::models(repositories@) == push_summaries(all.take(i as int).filter(in_window)),
        decreases events.len() - i,
    {
        broadcast use Seq::lemma_filter_push;
        let event = &events[i];
        let too_early = match &query.since_received_at {
            Some(since) => event.notification.received_at.precedes(since),
            None => false,
        };
        assert(all[i as int] == event@);
        assert(all.take(i + 1) =~= all.take(i as int).push(event@));
        if !too_early {
            proof {
                all.take(i as int).lemma_filter_len(in_window);
            }
            count_push(&mut repositories, event, Ghost(all.take(i as int).filter(in_window)));
        }
        i += 1;
    }
    assert(all.take(all.len() as int) =~= all);
    let mut ordered = sort_ranked(repositories);
    limit_to(&mut ordered, query.limit);
    RecentRepositoriesListing { repositories: ordered }
}

/// Lists all registrations, which come in the order of their names.
pub fn answer_catalog(registrations: &Vec<StoredRegistration>) -> (listing: CatalogListing)
    ensures
        listing@ == model::models(registrations@),
{
    let mut repositories: Vec<Registration> = Vec::new();
    let mut i: usize = 0;
    while i < registrations.len()
        invariant
            i <= registrations.len(),
            repositories@.len() == i,
            forall|j: int| 0 <= j < i ==> #[trigger] repositories@[j]@ == registrations@[j]@,
        decreases registrations.len() - i,
    {
        repositories.push(registrations[i].registration.duplicate());
        i += 1;
    }
    assert(model::models(repositories@) =~= model::models(registrations@));
    CatalogListing { repositories }
}

/// A listing has at most as many items as asked for, and they are the first ones.
pub proof fn lemma_limited<T>(items: Seq<T>, limit: u64)
    ensures
        limited(items, limit).len() <= limit,
        limited(items, limit).len() <= items.len(),
        limited(items, limit) == items.take(limited(items, limit).len() as int),
        items.len() <= limit ==> limited(items, limit) == items,
{
    assert(items.take(items.len() as int) =~= items);
}

proof fn lemma_limited_members<T>(items: Seq<T>, limit: u64)
    ensures
        forall|item: T| #[trigger] limited(items, limit).contains(item) ==> items.contains(item),
{
    assert forall|item: T| #[trigger] limited(items, limit).contains(item) implies items.contains(
        item,
    ) by {
        let listed = limited(items, limit);
        let i = choose|i: int| 0 <= i < listed.len() && listed[i] == item;
        assert(items[i] == item);
    }
}

proof fn lemma_limited_in_order<R: Ranked>(items: Seq<R::V>, limit: u64)
    requires
        order::in_order::<R>(items),
    ensures
        order::in_order::<R>(limited(items, limit)),
{
    let listed = limited(items, limit);
    assert forall|i: int, j: int| 0 <= i < j < listed.len() implies !R::ranks_before(
        #[trigger] listed[j],
        #[trigger] listed[i],
    ) by {
        assert(listed[i] == items[i] && listed[j] == items[j]);
    }
}

/// Every listed event was recorded and is one that the query selects; the events
/// are listed from the oldest on; and where the limit allows, every selected event
/// is listed.
pub proof fn lemma_events_answer(events: Seq<EventModel>, query: EventsModel)
    requires
        table::keyed::<StoredEvent>(events),
    ensures
        events_answer(events, query).len() <= query.limit,
        forall|i: int, j: int|
            0 <= i < j < events_answer(events, query).len() ==> (#[trigger] events_answer(
                events,
                query,
            )[i]).sequence < (#[trigger] events_answer(events, query)[j]).sequence,
        forall|event: EventModel| #[trigger]
            events_answer(events, query).contains(event) ==> events.contains(event)
                && event_selected(event, query),
        events.len() <= query.limit ==> forall|event: EventModel| #[trigger]
            events_answer(events, query).contains(event) <==> events.contains(event)
                && event_selected(event, query),
{
    let selected = |event: EventModel| event_selected(event, query);
    let kept = events.filter(selected);
    let listed = events_answer(events, query);
    lemma_filter_members(events, selected);
    lemma_filter_ascends(events, selected);
    lemma_limited(kept, query.limit);
    lemma_limited_members(kept, query.limit);
    events.lemma_filter_len(selected);
    assert forall|i: int, j: int| 0 <= i < j < listed.len() implies (
    #[trigger] listed[i]).sequence < (#[trigger] listed[j]).sequence by {
        assert(listed[i] == kept[i] && listed[j] == kept[j]);
    }
    assert forall|event: EventModel| #[trigger] listed.contains(event) implies events.contains(event)
        && event_selected(event, query) by {
        assert(kept.contains(event));
    }
    if events.len() <= query.limit {
        assert forall|event: EventModel| #[trigger] listed.contains(event) <==> events.contains(
            event,
        ) && event_selected(event, query) by {
            assert(kept.contains(event) <==> events.contains(event) && selected(event));
        }
    }
}

proof fn lemma_filter_ascends(events: Seq<EventModel>, selected: spec_fn(EventModel) -> bool)
    requires
        table::keyed::<StoredEvent>(events),
    ensures
        forall|i: int, j: int|
            0 <= i < j < events.filter(selected).len() ==> (#[trigger] events.filter(
                selected,
            )[i]).sequence < (#[trigger] events.filter(selected)[j]).sequence,
        forall|i: int|
            0 <= i < events.filter(selected).len() ==> (#[trigger] events.filter(
                selected,
            )[i]).sequence <= ledger::last_sequence(events),
    decreases events.len(),
{
    broadcast use Seq::lemma_filter_push;

    ledger::lemma_events_ascend(events);
    if events.len() > 0 {
        let earlier = events.drop_last();
        let last = events.last();
        assert forall|i: int, j: int| 0 <= i < j < earlier.len() implies text::text_precedes(
            StoredEvent::key_of(#[trigger] earlier[i]),
            StoredEvent::key_of(#[trigger] earlier[j]),
        ) by {
            assert(earlier[i] == events[i] && earlier[j] == events[j]);
        }
        lemma_filter_ascends(earlier, selected);
        assert(events =~= earlier.push(last));
        let kept = earlier.filter(selected);
        assert(earlier.len() > 0 ==> ledger::last_sequence(earlier) < last.sequence) by {
            if earlier.len() > 0 {
                assert(events[earlier.len() - 1].sequence < events[events.len() - 1].sequence);
            }
        }
        assert(kept.len() <= earlier.len()) by {
            earlier.lemma_filter_len(selected);
        }
        let all = events.filter(selected);
        assert forall|i: int| 0 <= i < kept.len() implies (#[trigger] kept[i]).sequence
            < last.sequence by {}
        assert(all == if selected(last) {
            kept.push(last)
        } else {
            kept
        });
        assert forall|i: int| 0 <= i < all.len() implies (#[trigger] all[i]).sequence
            <= ledger::last_sequence(events) by {
            if i < kept.len() {
                assert(all[i] == kept[i]);
            }
        }
        assert forall|i: int, j: int| 0 <= i < j < all.len() implies (#[trigger] all[i]).sequence < (
        #[trigger] all[j]).sequence by {
            assert(all[i] == kept[i]);
            if j < kept.len() {
                assert(all[j] == kept[j]);
            }
        }
    }
}

/// The query for every event.
pub open spec fn every_event() -> EventsModel {
    EventsModel { repository_name: None, since_sequence: None, limit: u64::MAX }
}

/// The query for every event lists every event, in the order they were recorded.
pub proof fn lemma_every_event_listed(events: Seq<EventModel>)
    requires
        events.len() <= u64::MAX,
    ensures
        events_answer(events, every_event()) == events,
{
    let selected = |event: EventModel| event_selected(event, every_event());
    lemma_filter_all(events, selected);
}

proof fn lemma_filter_all<T>(items: Seq<T>, wanted: spec_fn(T) -> bool)
    requires
        forall|item: T| #[trigger] wanted(item),
    ensures
        items.filter(wanted) == items,
    decreases items.len(),
{
    reveal(Seq::filter);
    if items.len() > 0 {
        lemma_filter_all(items.drop_last(), wanted);
        assert(items.drop_last().push(items.last()) =~= items);
    }
}

/// To record a notification is to add one event at the end of the list of every
/// event, under the number that follows the highest, and to change no other record.
pub proof fn lemma_recording_appends(
    state: LedgerState,
    notification: ReceiveHookNotificationModel,
)
    requires
        state.well_formed(),
        ledger::has_room(state.events),
        state.events.len() < u64::MAX,
    ensures
        events_answer(ledger::notified(state, notification).events, every_event())
            == events_answer(state.events, every_event()).push(
            ledger::next_event(state, notification),
        ),
        ledger::next_event(state, notification).sequence == ledger::last_sequence(state.events)
            + 1,
        ledger::notified(state, notification) == (LedgerState {
            events: ledger::notified(state, notification).events,
            ..state
        }),
{
    lemma_every_event_listed(state.events);
    lemma_every_event_listed(ledger::notified(state, notification).events);
}

/// An event can be read back as soon as it is recorded: asked for what came since
/// the highest sequence number before it, the ledger lists that event alone.
pub proof fn lemma_recorded_event_listed(
    state: LedgerState,
    notification: ReceiveHookNotificationModel,
    limit: u64,
)
    requires
        state.well_formed(),
        ledger::has_room(state.events),
        limit > 0,
    ensures
        events_answer(
            ledger::notified(state, notification).events,
            EventsModel {
                repository_name: None,
                since_sequence: Some(ledger::last_sequence(state.events)),
                limit,
            },
        ) == seq![ledger::next_event(state, notification)],
{
    broadcast use Seq::lemma_filter_push;

    let query = EventsModel {
        repository_name: None,
        since_sequence: Some(ledger::last_sequence(state.events)),
        limit,
    };
    let selected = |event: EventModel| event_selected(event, query);
    let event = ledger::next_event(state, notification);
    ledger::lemma_events_ascend(state.events);
    assert forall|i: int| 0 <= i < state.events.len() implies !selected(
        #[trigger] state.events[i],
    ) by {}
    lemma_filter_none(state.events, selected);
    assert(state.events.push(event).filter(selected) =~= seq![event]);
}

/// Every listed commit is the summary of a stored commit that the query selects;
/// the commits are in listing order; and where the limit allows, every selected
/// commit is listed.
pub proof fn lemma_commits_answer(commits: Seq<StoredCommitModel>, query: CommitMessagesModel)
    ensures
        commits_answer(commits, query).len() <= query.limit,
        order::in_order::<Commit>(commits_answer(commits, query)),
        forall|listed: CommitModel| #[trigger]
            commits_answer(commits, query).contains(listed) ==> exists|commit: StoredCommitModel|
                commits.contains(commit) && commit_selected(commit, query) && listed
                    == #[trigger] records::commit_summary(commit),
        commits.len() <= query.limit ==> forall|commit: StoredCommitModel|
            commits.contains(commit) && commit_selected(commit, query) ==> commits_answer(
                commits,
                query,
            ).contains(#[trigger] records::commit_summary(commit)),
{
    let selected = |commit: StoredCommitModel| commit_selected(commit, query);
    let summary = |commit: StoredCommitModel| records::commit_summary(commit);
    let kept = commits.filter(selected);
    let summaries = kept.map_values(summary);
    let sorted = order::ranked::<Commit>(summaries);
    let listed = commits_answer(commits, query);
    lemma_filter_members(commits, selected);
    commits.lemma_filter_len(selected);
    order::lemma_ranked::<Commit>(summaries);
    lemma_limited(sorted, query.limit);
    lemma_limited_members(sorted, query.limit);
    lemma_limited_in_order::<Commit>(sorted, query.limit);
    assert forall|found: CommitModel| #[trigger] listed.contains(found) implies exists|
        commit: StoredCommitModel,
    |
        commits.contains(commit) && commit_selected(commit, query) && found
            == #[trigger] records::commit_summary(commit) by {
        assert(sorted.contains(found));
        assert(summaries.contains(found));
        let i = choose|i: int| 0 <= i < summaries.len() && summaries[i] == found;
        assert(kept.contains(kept[i]));
        assert(found == records::commit_summary(kept[i]));
    }
    if commits.len() <= query.limit {
        assert forall|commit: StoredCommitModel|
            commits.contains(commit) && commit_selected(commit, query) implies listed.contains(
            #[trigger] records::commit_summary(commit),
        ) by {
            assert(kept.contains(commit));
            let i = choose|i: int| 0 <= i < kept.len() && kept[i] == commit;
            assert(summaries[i] == records::commit_summary(commit));
            assert(summaries.contains(records::commit_summary(commit)));
            assert(sorted.contains(records::commit_summary(commit)));
        }
    }
}

/// The commits of a push can be found as soon as the push is recorded whole: a
/// search without conditions, and with room for all commits, lists each of them.
pub proof fn lemma_recorded_commit_listed(
    state: LedgerState,
    observation: PushObservationModel,
    at: int,
    limit: u64,
)
    requires
        state.well_formed(),
        ledger::has_room(state.events),
        ledger::admitted_commits(state, observation) == observation.commits.len(),
        0 <= at < observation.commits.len(),
        state.commits.len() + observation.commits.len() <= limit,
    ensures
        commits_answer(
            ledger::observed(state, observation).commits,
            CommitMessagesModel {
                repository_name: None,
                since_received_at: None,
                until_received_at: None,
                message_contains: None,
                limit,
            },
        ).contains(
            records::commit_summary(
                ledger::observed_commits(observation, ledger::next_sequence(state.events))[at],
            ),
        ),
{
    let query = CommitMessagesModel {
        repository_name: None,
        since_received_at: None,
        until_received_at: None,
        message_contains: None,
        limit,
    };
    let commits = ledger::observed_commits(observation, ledger::next_sequence(state.events));
    assert(commits.take(commits.len() as int) =~= commits);
    table::lemma_asserted_all::<StoredCommit>(state.commits, commits);
    lemma_commits_answer(ledger::observed(state, observation).commits, query);
    assert(commits.contains(commits[at]));
    assert(ledger::observed(state, observation).commits.contains(commits[at]));
    assert(commit_selected(commits[at], query));
}

/// Whether a file change stands in a stored commit and the query selects both.
pub open spec fn file_selected(
    commits: Seq<StoredCommitModel>,
    query: ChangedFilesModel,
    commit: StoredCommitModel,
    file: FileChangeModel,
) -> bool {
    &&& commits.contains(commit)
    &&& commit_in_window(
        commit,
        query.repository_name,
        query.since_received_at,
        query.until_received_at,
    )
    &&& commit.commit.changed_files.contains(file)
    &&& search_met(file.path, query.path_contains)
}

proof fn lemma_matching_files(
    commit: StoredCommitModel,
    files: Seq<FileChangeModel>,
    search: Option<Seq<char>>,
)
    ensures
        forall|listed: ChangedFileModel| #[trigger]
            matching_files(commit, files, search).contains(listed) ==> exists|file: FileChangeModel|
                files.contains(file) && search_met(file.path, search) && listed
                    == #[trigger] listed_file(commit, file),
        forall|file: FileChangeModel|
            files.contains(file) && search_met(file.path, search) ==> matching_files(
                commit,
                files,
                search,
            ).contains(#[trigger] listed_file(commit, file)),
{
    let wanted = |file: FileChangeModel| search_met(file.path, search);
    let kept = files.filter(wanted);
    let all = matching_files(commit, files, search);
    lemma_filter_members(files, wanted);
    assert forall|listed: ChangedFileModel| #[trigger] all.contains(listed) implies exists|
        file: FileChangeModel,
    |
        files.contains(file) && search_met(file.path, search) && listed == #[trigger] listed_file(
            commit,
            file,
        ) by {
        let i = choose|i: int| 0 <= i < all.len() && all[i] == listed;
        assert(kept.contains(kept[i]));
        assert(listed == listed_file(commit, kept[i]));
    }
    assert forall|file: FileChangeModel|
        files.contains(file) && search_met(file.path, search) implies all.contains(
        #[trigger] listed_file(commit, file),
    ) by {
        assert(kept.contains(file));
        let i = choose|i: int| 0 <= i < kept.len() && kept[i] == file;
        assert(all[i] == listed_file(commit, file));
    }
}

proof fn lemma_selected_files(commits: Seq<StoredCommitModel>, query: ChangedFilesModel)
    ensures
        forall|listed: ChangedFileModel| #[trigger]
            selected_files(commits, query).contains(listed) ==> exists|
                commit: StoredCommitModel,
                file: FileChangeModel,
            |
                file_selected(commits, query, commit, file) && listed == #[trigger] listed_file(
                    commit,
                    file,
                ),
        forall|commit: StoredCommitModel, file: FileChangeModel|
            file_selected(commits, query, commit, file) ==> selected_files(
                commits,
                query,
            ).contains(#[trigger] listed_file(commit, file)),
    decreases commits.len(),
{
    if commits.len() > 0 {
        let earlier = commits.drop_last();
        let last = commits.last();
        let before = selected_files(earlier, query);
        let all = selected_files(commits, query);
        lemma_selected_files(earlier, query);
        lemma_matching_files(last, last.commit.changed_files, query.path_contains);
        let added = matching_files(last, last.commit.changed_files, query.path_contains);
        assert(commits[commits.len() - 1] == last);
        assert forall|commit: StoredCommitModel| #[trigger] commits.contains(commit) <==> (
        earlier.contains(commit) || commit == last) by {
            if commits.contains(commit) {
                let i = choose|i: int| 0 <= i < commits.len() && commits[i] == commit;
                if i < earlier.len() {
                    assert(earlier[i] == commit);
                }
            }
            if earlier.contains(commit) {
                let i = choose|i: int| 0 <= i < earlier.len() && earlier[i] == commit;
                assert(commits[i] == commit);
            }
        }
        assert forall|listed: ChangedFileModel| #[trigger] all.contains(listed) implies exists|
            commit: StoredCommitModel,
            file: FileChangeModel,
        |
            file_selected(commits, query, commit, file) && listed == #[trigger] listed_file(
                commit,
                file,
            ) by {
            let i = choose|i: int| 0 <= i < all.len() && all[i] == listed;
            if i < before.len() {
                assert(before[i] == listed);
                assert(before.contains(listed));
                let (commit, file) = choose|commit: StoredCommitModel, file: FileChangeModel|
                    file_selected(earlier, query, commit, file) && listed == #[trigger] listed_file(
                        commit,
                        file,
                    );
                assert(file_selected(commits, query, commit, file));
            } else {
                assert(added[i - before.len()] == listed);
                assert(added.contains(listed));
                let file = choose|file: FileChangeModel|
                    last.commit.changed_files.contains(file) && search_met(
                        file.path,
                        query.path_contains,
                    ) && listed == #[trigger] listed_file(last, file);
                assert(file_selected(commits, query, last, file));
            }
        }
        assert forall|commit: StoredCommitModel, file: FileChangeModel|
            file_selected(commits, query, commit, file) implies all.contains(
            #[trigger] listed_file(commit, file),
        ) by {
            let listed = listed_file(commit, file);
            if earlier.contains(commit) {
                assert(file_selected(earlier, query, commit, file));
                let i = choose|i: int| 0 <= i < before.len() && before[i] == listed;
                assert(all[i] == listed);
            } else {
                let i = choose|i: int| 0 <= i < added.len() && added[i] == listed;
                assert(all[before.len() + i] == listed);
            }
        }
    }
}

/// Every listed file change stands in a stored commit and the query selects both;
/// the changes are in listing order; and where the limit allows, every selected
/// change is listed.
pub proof fn lemma_files_answer(commits: Seq<StoredCommitModel>, query: ChangedFilesModel)
    ensures
        files_answer(commits, query).len() <= query.limit,
        order::in_order::<ChangedFile>(files_answer(commits, query)),
        forall|listed: ChangedFileModel| #[trigger]
            files_answer(commits, query).contains(listed) ==> exists|
                commit: StoredCommitModel,
                file: FileChangeModel,
            |
                file_selected(commits, query, commit, file) && listed == #[trigger] listed_file(
                    commit,
                    file,
                ),
        selected_files(commits, query).len() <= query.limit ==> forall|
            commit: StoredCommitModel,
            file: FileChangeModel,
        |
            file_selected(commits, query, commit, file) ==> files_answer(commits, query).contains(
                #[trigger] listed_file(commit, file),
            ),
{
    let all = selected_files(commits, query);
    let sorted = order::ranked::<ChangedFile>(all);
    lemma_selected_files(commits, query);
    order::lemma_ranked::<ChangedFile>(all);
    lemma_limited(sorted, query.limit);
    lemma_limited_members(sorted, query.limit);
    lemma_limited_in_order::<ChangedFile>(sorted, query.limit);
    let answer = files_answer(commits, query);
    assert forall|listed: ChangedFileModel| #[trigger] answer.contains(listed) implies exists|
        commit: StoredCommitModel,
        file: FileChangeModel,
    |
        file_selected(commits, query, commit, file) && listed == #[trigger] listed_file(
            commit,
            file,
        ) by {
        assert(sorted.contains(listed));
        assert(all.contains(listed));
    }
    if all.len() <= query.limit {
        assert forall|commit: StoredCommitModel, file: FileChangeModel|
            file_selected(commits, query, commit, file) implies answer.contains(
            #[trigger] listed_file(commit, file),
        ) by {
            assert(all.contains(listed_file(commit, file)));
            assert(sorted.contains(listed_file(commit, file)));
        }
    }
}

/// Every listed repository was pushed to in the window and is listed with its last
/// push and the number of its pushes; the repositories are in listing order; and
/// where the limit allows, every repository that was pushed to in the window is
/// listed.
pub proof fn lemma_recent_answer(events: Seq<EventModel>, query: RecentRepositoriesModel)
    ensures
        recent_answer(events, query).len() <= query.limit,
        order::in_order::<RecentRepository>(recent_answer(events, query)),
        ({
            let window = events.filter(|event: EventModel| event_in_window(event, query));
            &&& forall|listed: RecentRepositoryModel| #[trigger]
                recent_answer(events, query).contains(listed) ==> pushes_to(
                    window,
                    listed.repository_name,
                ).len() > 0 && listed == push_summary(window, listed.repository_name)
            &&& events.len() <= query.limit ==> forall|name: Seq<char>|
                pushes_to(window, name).len() > 0 ==> recent_answer(events, query).contains(
                    #[trigger] push_summary(window, name),
                )
        }),
{
    let in_window = |event: EventModel| event_in_window(event, query);
    let window = events.filter(in_window);
    let names = pushed_names(window);
    let summaries = push_summaries(window);
    let sorted = order::ranked::<RecentRepository>(summaries);
    let answer = recent_answer(events, query);
    events.lemma_filter_len(in_window);
    lemma_pushed_names(window);
    order::lemma_ranked::<RecentRepository>(summaries);
    lemma_limited(sorted, query.limit);
    lemma_limited_members(sorted, query.limit);
    lemma_limited_in_order::<RecentRepository>(sorted, query.limit);
    assert forall|listed: RecentRepositoryModel| #[trigger] answer.contains(
        listed,
    ) implies pushes_to(window, listed.repository_name).len() > 0 && listed == push_summary(
        window,
        listed.repository_name,
    ) by {
        assert(sorted.contains(listed));
        assert(summaries.contains(listed));
        let i = choose|i: int| 0 <= i < summaries.len() && summaries[i] == listed;
        assert(names.contains(names[i]));
        assert(listed == push_summary(window, names[i]));
    }
    if events.len() <= query.limit {
        assert forall|name: Seq<char>| pushes_to(window, name).len() > 0 implies answer.contains(
            #[trigger] push_summary(window, name),
        ) by {
            assert(names.contains(name));
            let i = choose|i: int| 0 <= i < names.len() && names[i] == name;
            assert(summaries[i] == push_summary(window, name));
            assert(summaries.contains(push_summary(window, name)));
            assert(sorted.contains(push_summary(window, name)));
        }
    }
}

/// The push that a repository is listed with has the highest sequence number of
/// those in the window.
pub proof fn lemma_last_push_latest(
    events: Seq<EventModel>,
    query: RecentRepositoriesModel,
    name: Seq<char>,
)
    requires
        table::keyed::<StoredEvent>(events),
    ensures
        ({
            let window = events.filter(|event: EventModel| event_in_window(event, query));
            forall|i: int|
                0 <= i < pushes_to(window, name).len() ==> (#[trigger] pushes_to(
                    window,
                    name,
                )[i]).sequence <= push_summary(window, name).latest_sequence
        }),
{
    let in_window = |event: EventModel| event_in_window(event, query);
    let to_name = |event: EventModel| event.notification.repository_name == name;
    let window = events.filter(in_window);
    let pushes = pushes_to(window, name);
    lemma_filter_ascends(events, in_window);
    assert forall|i: int, j: int| 0 <= i < j < window.len() implies text::text_precedes(
        StoredEvent::key_of(#[trigger] window[i]),
        StoredEvent::key_of(#[trigger] window[j]),
    ) by {
        records::lemma_event_key_order(window[i].sequence, window[j].sequence);
    }
    lemma_filter_ascends(window, to_name);
    assert(pushes == window.filter(to_name));
    assert forall|i: int| 0 <= i < pushes.len() implies (#[trigger] pushes[i]).sequence
        <= push_summary(window, name).latest_sequence by {
        if i < pushes.len() - 1 {
            assert(pushes[i].sequence < pushes[pushes.len() - 1].sequence);
        }
    }
}

/// The catalog lists every repository once, in the order of the names.
pub proof fn lemma_catalog_ascends(state: LedgerState)
    requires
        state.well_formed(),
    ensures
        forall|i: int, j: int|
            0 <= i < j < state.registrations.len() ==> text::text_precedes(
                (#[trigger] state.registrations[i]).repository_name,
                (#[trigger] state.registrations[j]).repository_name,
            ),
{
    assert forall|i: int, j: int| 0 <= i < j < state.registrations.len() implies text::text_precedes(
        (#[trigger] state.registrations[i]).repository_name,
        (#[trigger] state.registrations[j]).repository_name,
    ) by {
        assert(text::text_precedes(
            StoredRegistration::key_of(state.registrations[i]),
            StoredRegistration::key_of(state.registrations[j]),
        ));
    }
}

/// The answer to a query for events, in full: of the events that were recorded for
/// the named repository, if one is named, and after the named number, if one is
/// named, it lists the oldest, each once and as it was recorded, as many as the
/// limit allows. What is left out comes behind all that is listed.
pub proof fn lemma_events_listed(events: Seq<EventModel>, query: EventsModel)
    requires
        table::keyed::<StoredEvent>(events),
    ensures
        ({
            let listed = events_answer(events, query);
            let kept = events.filter(
                |event: EventModel|
                    {
                        &&& query.repository_name matches Some(name)
                            ==> event.notification.repository_name == name
                        &&& query.since_sequence matches Some(since) ==> event.sequence > since
                    },
            );
            &&& listed.len() == if kept.len() <= query.limit {
                kept.len() as int
            } else {
                query.limit as int
            }
            &&& forall|i: int| 0 <= i < listed.len() ==> #[trigger] listed[i] == kept[i]
            &&& forall|i: int, j: int|
                0 <= i < j < listed.len() ==> (#[trigger] listed[i]).sequence < (
                #[trigger] listed[j]).sequence
            &&& forall|event: EventModel| #[trigger]
                listed.contains(event) ==> {
                    &&& events.contains(event)
                    &&& query.repository_name matches Some(name)
                        ==> event.notification.repository_name == name
                    &&& query.since_sequence matches Some(since) ==> event.sequence > since
                }
            &&& forall|event: EventModel|
                #![trigger events.contains(event)]
                {
                    &&& events.contains(event)
                    &&& !listed.contains(event)
                    &&& query.repository_name matches Some(name)
                        ==> event.notification.repository_name == name
                    &&& query.since_sequence matches Some(since) ==> event.sequence > since
                } ==> listed.len() == query.limit && forall|i: int|
                    0 <= i < listed.len() ==> (#[trigger] listed[i]).sequence < event.sequence
        }),
{
    let listed = events_answer(events, query);
    let selected = |event: EventModel| event_selected(event, query);
    let written = |event: EventModel|
        {
            &&& query.repository_name matches Some(name) ==> event.notification.repository_name
                == name
            &&& query.since_sequence matches Some(since) ==> event.sequence > since
        };
    let kept = events.filter(written);
    order::lemma_filters_agree(events, written, selected);
    lemma_events_answer(events, query);
    lemma_filter_members(events, written);
    lemma_filter_ascends(events, written);
    assert forall|event: EventModel|
        #![trigger events.contains(event)]
        events.contains(event) && !listed.contains(event) && written(event) implies listed.len()
        == query.limit && forall|i: int|
        0 <= i < listed.len() ==> (#[trigger] listed[i]).sequence < event.sequence by {
        assert(kept.contains(event));
        let at = choose|at: int| 0 <= at < kept.len() && kept[at] == event;
        if at < listed.len() {
            assert(listed[at] == event);
        }
        assert forall|i: int| 0 <= i < listed.len() implies (#[trigger] listed[i]).sequence
            < event.sequence by {
            assert(listed[i] == kept[i]);
        }
    }
}

/// The answer to a search of commits, in full: of the stored commits that belong to
/// the named repository, came no earlier than the named beginning and no later than
/// the named end, and hold the searched text, each bound on its own and only where
/// it is named, it lists those received last, then those of the highest number,
/// then by identifier, as many as the limit allows. Each is listed once for each
/// time that it is stored, with the fields that it is stored with.
pub proof fn lemma_commits_listed(commits: Seq<StoredCommitModel>, query: CommitMessagesModel)
    ensures
        ({
            let listed = commits_answer(commits, query);
            let met = commits.filter(
                |commit: StoredCommitModel|
                    {
                        &&& query.repository_name matches Some(name) ==> commit.repository_name
                            == name
                        &&& query.since_received_at matches Some(since) ==> !text::text_precedes(
                            commit.received_at,
                            since,
                        )
                        &&& query.until_received_at matches Some(until) ==> !text::text_precedes(
                            until,
                            commit.received_at,
                        )
                        &&& query.message_contains matches Some(search)
                            ==> text::text_contains_ignoring_case(commit.commit.message, search)
                    },
            );
            let rows = met.map_values(
                |commit: StoredCommitModel|
                    CommitModel {
                        repository_name: commit.repository_name,
                        received_at: commit.received_at,
                        sequence: commit.sequence,
                        object_identifier: commit.commit.object_identifier,
                        ref_name: commit.commit.ref_name,
                        commit_timestamp: commit.commit.commit_timestamp,
                        message: commit.commit.message,
                    },
            );
            &&& order::lists_first(
                listed,
                rows,
                query.limit,
                |left: CommitModel, right: CommitModel|
                    {
                        ||| text::text_precedes(right.received_at, left.received_at)
                        ||| left.received_at == right.received_at && left.sequence > right.sequence
                        ||| left.received_at == right.received_at && left.sequence
                            == right.sequence && text::text_precedes(
                            left.object_identifier,
                            right.object_identifier,
                        )
                    },
            )
            &&& forall|row: CommitModel| #[trigger]
                listed.contains(row) ==> {
                    &&& rows.contains(row)
                    &&& query.repository_name matches Some(name) ==> row.repository_name == name
                    &&& query.since_received_at matches Some(since) ==> !text::text_precedes(
                        row.received_at,
                        since,
                    )
                    &&& query.until_received_at matches Some(until) ==> !text::text_precedes(
                        until,
                        row.received_at,
                    )
                    &&& query.message_contains matches Some(search)
                        ==> text::text_contains_ignoring_case(row.message, search)
                }
            &&& rows.len() <= query.limit ==> forall|row: CommitModel| #[trigger]
                rows.contains(row) ==> listed.contains(row)
        }),
{
    let listed = commits_answer(commits, query);
    let selected = |commit: StoredCommitModel| commit_selected(commit, query);
    let summary = |commit: StoredCommitModel| records::commit_summary(commit);
    let written = |commit: StoredCommitModel|
        {
            &&& query.repository_name matches Some(name) ==> commit.repository_name == name
            &&& query.since_received_at matches Some(since) ==> !text::text_precedes(
                commit.received_at,
                since,
            )
            &&& query.until_received_at matches Some(until) ==> !text::text_precedes(
                until,
                commit.received_at,
            )
            &&& query.message_contains matches Some(search) ==> text::text_contains_ignoring_case(
                commit.commit.message,
                search,
            )
        };
    let row_of = |commit: StoredCommitModel|
        CommitModel {
            repository_name: commit.repository_name,
            received_at: commit.received_at,
            sequence: commit.sequence,
            object_identifier: commit.commit.object_identifier,
            ref_name: commit.commit.ref_name,
            commit_timestamp: commit.commit.commit_timestamp,
            message: commit.commit.message,
        };
    let before = |left: CommitModel, right: CommitModel|
        {
            ||| text::text_precedes(right.received_at, left.received_at)
            ||| left.received_at == right.received_at && left.sequence > right.sequence
            ||| left.received_at == right.received_at && left.sequence == right.sequence
                && text::text_precedes(left.object_identifier, right.object_identifier)
        };
    let met = commits.filter(written);
    let rows = met.map_values(row_of);
    order::lemma_filters_agree(commits, written, selected);
    assert(rows =~= commits.filter(selected).map_values(summary));
    order::lemma_lists_first::<Commit>(listed, rows, query.limit, before);
    order::lemma_ranked::<Commit>(rows);
    lemma_limited_members(order::ranked::<Commit>(rows), query.limit);
    lemma_filter_members(commits, written);
    assert forall|row: CommitModel| #[trigger] listed.contains(row) implies rows.contains(row) && (
    query.repository_name matches Some(name) ==> row.repository_name == name) && (
    query.since_received_at matches Some(since) ==> !text::text_precedes(row.received_at, since))
        && (query.until_received_at matches Some(until) ==> !text::text_precedes(
        until,
        row.received_at,
    )) && (query.message_contains matches Some(search) ==> text::text_contains_ignoring_case(
        row.message,
        search,
    )) by {
        assert(rows.contains(row));
        let i = choose|i: int| 0 <= i < rows.len() && rows[i] == row;
        assert(met.contains(met[i]));
        assert(written(met[i]));
    }
    if rows.len() <= query.limit {
        assert forall|row: CommitModel| #[trigger] rows.contains(row) implies listed.contains(
            row,
        ) by {
            assert(order::ranked::<Commit>(rows).contains(row));
        }
    }
}

/// The file changes of the selected commits, one commit after the other.
proof fn lemma_selected_files_flat(
    commits: Seq<StoredCommitModel>,
    query: ChangedFilesModel,
    in_window: spec_fn(StoredCommitModel) -> bool,
    files_of: spec_fn(StoredCommitModel) -> Seq<ChangedFileModel>,
)
    requires
        forall|commit: StoredCommitModel| #[trigger]
            in_window(commit) == commit_in_window(
                commit,
                query.repository_name,
                query.since_received_at,
                query.until_received_at,
            ),
        forall|commit: StoredCommitModel| #[trigger]
            files_of(commit) == matching_files(
                commit,
                commit.commit.changed_files,
                query.path_contains,
            ),
    ensures
        selected_files(commits, query) == commits.filter(in_window).map_values(files_of).flatten(),
    decreases commits.len(),
{
    broadcast use Seq::lemma_filter_push, Seq::lemma_flatten_push;

    if commits.len() > 0 {
        let earlier = commits.drop_last();
        let last = commits.last();
        lemma_selected_files_flat(earlier, query, in_window, files_of);
        assert(commits =~= earlier.push(last));
        assert(in_window(last) == commit_in_window(
            last,
            query.repository_name,
            query.since_received_at,
            query.until_received_at,
        ));
        if in_window(last) {
            assert(earlier.filter(in_window).push(last).map_values(files_of) =~= earlier.filter(
                in_window,
            ).map_values(files_of).push(files_of(last)));
        }
    } else {
        assert(commits.filter(in_window) =~= Seq::empty());
        assert(commits.filter(in_window).map_values(files_of) =~= Seq::empty());
    }
}

/// The answer to a query for file changes, in full: of the stored commits that
/// belong to the named repository, came no earlier than the named beginning and no
/// later than the named end, it lists the file changes whose path holds the searched
/// text, each bound on its own and only where it is named: those received last, then
/// those of the highest number, then by path, as many as the limit allows. Each is
/// listed with its own status and paths and with the commit that it stands in.
pub proof fn lemma_files_listed(commits: Seq<StoredCommitModel>, query: ChangedFilesModel)
    ensures
        ({
            let listed = files_answer(commits, query);
            let rows = commits.filter(
                |commit: StoredCommitModel|
                    {
                        &&& query.repository_name matches Some(name) ==> commit.repository_name
                            == name
                        &&& query.since_received_at matches Some(since) ==> !text::text_precedes(
                            commit.received_at,
                            since,
                        )
                        &&& query.until_received_at matches Some(until) ==> !text::text_precedes(
                            until,
                            commit.received_at,
                        )
                    },
            ).map_values(
                |commit: StoredCommitModel|
                    commit.commit.changed_files.filter(
                        |file: FileChangeModel|
                            (query.path_contains matches Some(search)
                                ==> text::text_contains_ignoring_case(file.path, search)),
                    ).map_values(
                        |file: FileChangeModel|
                            ChangedFileModel {
                                repository_name: commit.repository_name,
                                received_at: commit.received_at,
                                sequence: commit.sequence,
                                commit_object_identifier: commit.commit.object_identifier,
                                ref_name: commit.commit.ref_name,
                                status: file.status,
                                path: file.path,
                                old_path: file.old_path,
                            },
                    ),
            ).flatten();
            &&& order::lists_first(
                listed,
                rows,
                query.limit,
                |left: ChangedFileModel, right: ChangedFileModel|
                    {
                        ||| text::text_precedes(right.received_at, left.received_at)
                        ||| left.received_at == right.received_at && left.sequence > right.sequence
                        ||| left.received_at == right.received_at && left.sequence
                            == right.sequence && text::text_precedes(left.path, right.path)
                    },
            )
            &&& forall|row: ChangedFileModel| #[trigger]
                listed.contains(row) ==> {
                    &&& exists|commit: StoredCommitModel, file: FileChangeModel|
                        {
                            &&& #[trigger] commits.contains(commit)
                            &&& #[trigger] commit.commit.changed_files.contains(file)
                            &&& row.status == file.status
                            &&& row.path == file.path
                            &&& row.old_path == file.old_path
                            &&& row.repository_name == commit.repository_name
                            &&& row.received_at == commit.received_at
                            &&& row.sequence == commit.sequence
                            &&& row.commit_object_identifier == commit.commit.object_identifier
                            &&& row.ref_name == commit.commit.ref_name
                        }
                    &&& query.repository_name matches Some(name) ==> row.repository_name == name
                    &&& query.since_received_at matches Some(since) ==> !text::text_precedes(
                        row.received_at,
                        since,
                    )
                    &&& query.until_received_at matches Some(until) ==> !text::text_precedes(
                        until,
                        row.received_at,
                    )
                    &&& query.path_contains matches Some(search)
                        ==> text::text_contains_ignoring_case(row.path, search)
                }
            &&& rows.len() <= query.limit ==> forall|row: ChangedFileModel| #[trigger]
                rows.contains(row) ==> listed.contains(row)
        }),
{
    let listed = files_answer(commits, query);
    let in_window = |commit: StoredCommitModel|
        {
            &&& query.repository_name matches Some(name) ==> commit.repository_name == name
            &&& query.since_received_at matches Some(since) ==> !text::text_precedes(
                commit.received_at,
                since,
            )
            &&& query.until_received_at matches Some(until) ==> !text::text_precedes(
                until,
                commit.received_at,
            )
        };
    let path_met = |file: FileChangeModel|
        (query.path_contains matches Some(search) ==> text::text_contains_ignoring_case(
            file.path,
            search,
        ));
    let files_of = |commit: StoredCommitModel|
        commit.commit.changed_files.filter(
            |file: FileChangeModel|
                (query.path_contains matches Some(search) ==> text::text_contains_ignoring_case(
                    file.path,
                    search,
                )),
        ).map_values(
            |file: FileChangeModel|
                ChangedFileModel {
                    repository_name: commit.repository_name,
                    received_at: commit.received_at,
                    sequence: commit.sequence,
                    commit_object_identifier: commit.commit.object_identifier,
                    ref_name: commit.commit.ref_name,
                    status: file.status,
                    path: file.path,
                    old_path: file.old_path,
                },
        );
    let before = |left: ChangedFileModel, right: ChangedFileModel|
        {
            ||| text::text_precedes(right.received_at, left.received_at)
            ||| left.received_at == right.received_at && left.sequence > right.sequence
            ||| left.received_at == right.received_at && left.sequence == right.sequence
                && text::text_precedes(left.path, right.path)
        };
    let rows = commits.filter(in_window).map_values(files_of).flatten();
    assert forall|commit: StoredCommitModel| #[trigger] files_of(commit) == matching_files(
        commit,
        commit.commit.changed_files,
        query.path_contains,
    ) by {
        order::lemma_filters_agree(
            commit.commit.changed_files,
            path_met,
            |file: FileChangeModel| search_met(file.path, query.path_contains),
        );
        assert(files_of(commit) =~= matching_files(
            commit,
            commit.commit.changed_files,
            query.path_contains,
        ));
    }
    lemma_selected_files_flat(commits, query, in_window, files_of);
    order::lemma_lists_first::<ChangedFile>(listed, rows, query.limit, before);
    order::lemma_ranked::<ChangedFile>(rows);
    lemma_files_answer(commits, query);
    assert forall|row: ChangedFileModel| #[trigger] listed.contains(row) implies exists|
        commit: StoredCommitModel,
        file: FileChangeModel,
    |
        {
            &&& #[trigger] commits.contains(commit)
            &&& #[trigger] commit.commit.changed_files.contains(file)
            &&& row.status == file.status
            &&& row.path == file.path
            &&& row.old_path == file.old_path
            &&& row.repository_name == commit.repository_name
            &&& row.received_at == commit.received_at
            &&& row.sequence == commit.sequence
            &&& row.commit_object_identifier == commit.commit.object_identifier
            &&& row.ref_name == commit.commit.ref_name
        } && in_window(commit) && path_met(file) by {
        let (commit, file) = choose|commit: StoredCommitModel, file: FileChangeModel|
            file_selected(commits, query, commit, file) && row == #[trigger] listed_file(
                commit,
                file,
            );
        assert(commits.contains(commit) && commit.commit.changed_files.contains(file));
        assert(in_window(commit) && path_met(file));
    }
    if rows.len() <= query.limit {
        assert forall|row: ChangedFileModel| #[trigger] rows.contains(row) implies listed.contains(
            row,
        ) by {
            assert(order::ranked::<ChangedFile>(rows).contains(row));
        }
    }
}

/// The pushes that some rows count together.
pub open spec fn total_pushes(rows: Seq<RecentRepositoryModel>) -> nat
    decreases rows.len(),
{
    if rows.len() == 0 {
        0
    } else {
        total_pushes(rows.drop_last()) + rows.last().push_count as nat
    }
}

proof fn lemma_total_inserted(sorted: Seq<RecentRepositoryModel>, row: RecentRepositoryModel)
    ensures
        total_pushes(order::inserted::<RecentRepository>(sorted, row)) == total_pushes(sorted)
            + row.push_count,
    decreases sorted.len(),
{
    let result = order::inserted::<RecentRepository>(sorted, row);
    if sorted.len() == 0 || !RecentRepository::ranks_before(row, sorted.last()) {
        assert(result.drop_last() =~= sorted);
    } else {
        lemma_total_inserted(sorted.drop_last(), row);
        assert(result.drop_last() =~= order::inserted::<RecentRepository>(
            sorted.drop_last(),
            row,
        ));
    }
}

proof fn lemma_total_ranked(rows: Seq<RecentRepositoryModel>)
    ensures
        total_pushes(order::ranked::<RecentRepository>(rows)) == total_pushes(rows),
    decreases rows.len(),
{
    if rows.len() > 0 {
        lemma_total_ranked(rows.drop_last());
        lemma_total_inserted(order::ranked::<RecentRepository>(rows.drop_last()), rows.last());
    }
}

proof fn lemma_total_update(
    rows: Seq<RecentRepositoryModel>,
    at: int,
    row: RecentRepositoryModel,
)
    requires
        0 <= at < rows.len(),
    ensures
        total_pushes(rows.update(at, row)) == total_pushes(rows) - rows[at].push_count
            + row.push_count,
    decreases rows.len(),
{
    let changed = rows.update(at, row);
    if at == rows.len() - 1 {
        assert(changed.drop_last() =~= rows.drop_last());
    } else {
        lemma_total_update(rows.drop_last(), at, row);
        assert(changed.drop_last() =~= rows.drop_last().update(at, row));
    }
}

proof fn lemma_total_summaries(events: Seq<EventModel>)
    requires
        events.len() <= u64::MAX,
    ensures
        total_pushes(push_summaries(events)) == events.len(),
    decreases events.len(),
{
    if events.len() > 0 {
        let earlier = events.drop_last();
        let last = events.last();
        let name = last.notification.repository_name;
        let names = pushed_names(earlier);
        let rows = push_summaries(earlier);
        lemma_total_summaries(earlier);
        lemma_pushed_names(earlier);
        lemma_pushes_bounded(earlier, name);
        lemma_pushes_bounded(events, name);
        assert(earlier.push(last) =~= events);
        if names.contains(name) {
            let at = choose|at: int| 0 <= at < names.len() && names[at] == name;
            assert forall|i: int| 0 <= i < at implies (#[trigger] rows[i]).repository_name
                != name by {
                assert(rows[i].repository_name == names[i]);
            }
            lemma_summaries_push(earlier, last, at);
            lemma_total_update(rows, at, push_summary(events, name));
            assert(rows[at] == push_summary(earlier, name));
        } else {
            assert forall|i: int| 0 <= i < rows.len() implies (#[trigger] rows[i]).repository_name
                != name by {
                assert(rows[i].repository_name == names[i]);
            }
            lemma_summaries_push(earlier, last, rows.len() as int);
            assert(push_summaries(events).drop_last() =~= rows);
        }
    } else {
        assert(push_summaries(events) =~= Seq::empty());
    }
}

/// The answer to a query for recent repositories, in full. Of the events that were
/// received no earlier than the query names, if it names a time, every repository
/// that one went to is listed once, as the limit allows: those pushed to last first,
/// then those of the highest number, then by name. A repository is listed with the
/// time and the number of the last event that went to it, and with how many did.
/// Where the limit allows, the counts add up to the number of those events.
pub proof fn lemma_recent_listed(events: Seq<EventModel>, query: RecentRepositoriesModel)
    requires
        table::keyed::<StoredEvent>(events),
        events.len() <= u64::MAX,
    ensures
        ({
            let listed = recent_answer(events, query);
            let window = events.filter(
                |event: EventModel|
                    (query.since_received_at matches Some(since) ==> !text::text_precedes(
                        event.notification.received_at,
                        since,
                    )),
            );
            &&& listed.len() <= query.limit
            &&& forall|i: int|
                0 <= i < listed.len() ==> ({
                    let pushes = window.filter(
                        |event: EventModel|
                            event.notification.repository_name == (
                            #[trigger] listed[i]).repository_name,
                    );
                    &&& pushes.len() > 0
                    &&& listed[i].push_count == pushes.len()
                    &&& listed[i].latest_sequence == pushes.last().sequence
                    &&& listed[i].latest_received_at == pushes.last().notification.received_at
                    &&& forall|k: int|
                        0 <= k < pushes.len() ==> (#[trigger] pushes[k]).sequence
                            <= listed[i].latest_sequence
                })
            &&& forall|i: int, j: int|
                0 <= i < j < listed.len() ==> (#[trigger] listed[i]).repository_name != (
                #[trigger] listed[j]).repository_name
            &&& forall|i: int, j: int|
                0 <= i < j < listed.len() ==> ({
                    let first = #[trigger] listed[i];
                    let second = #[trigger] listed[j];
                    ||| text::text_precedes(second.latest_received_at, first.latest_received_at)
                    ||| first.latest_received_at == second.latest_received_at
                        && first.latest_sequence > second.latest_sequence
                    ||| first.latest_received_at == second.latest_received_at
                        && first.latest_sequence == second.latest_sequence && text::text_precedes(
                        first.repository_name,
                        second.repository_name,
                    )
                })
            &&& listed.len() < query.limit ==> forall|k: int|
                0 <= k < window.len() ==> exists|i: int|
                    0 <= i < listed.len() && (#[trigger] listed[i]).repository_name == (
                    #[trigger] window[k]).notification.repository_name
            &&& listed.len() < query.limit ==> total_pushes(listed) == window.len()
            &&& total_pushes(listed) <= window.len()
            &&& forall|k: int, i: int|
                0 <= k < window.len() && 0 <= i < listed.len() && (forall|l: int|
                    0 <= l < listed.len() ==> (#[trigger] listed[l]).repository_name
                        != window[k].notification.repository_name) ==> ({
                    let last = window.filter(
                        |event: EventModel|
                            event.notification.repository_name == (
                            #[trigger] window[k]).notification.repository_name,
                    ).last();
                    let row = #[trigger] listed[i];
                    ||| text::text_precedes(
                        last.notification.received_at,
                        row.latest_received_at,
                    )
                    ||| row.latest_received_at == last.notification.received_at
                        && row.latest_sequence >= last.sequence
                })
        }),
{
    let listed = recent_answer(events, query);
    let in_window = |event: EventModel| event_in_window(event, query);
    let written = |event: EventModel|
        (query.since_received_at matches Some(since) ==> !text::text_precedes(
            event.notification.received_at,
            since,
        ));
    let window = events.filter(written);
    order::lemma_filters_agree(events, written, in_window);
    events.lemma_filter_len(written);
    let names = pushed_names(window);
    let rows = push_summaries(window);
    let sorted = order::ranked::<RecentRepository>(rows);
    lemma_recent_answer(events, query);
    lemma_pushed_names(window);
    order::lemma_ranked::<RecentRepository>(rows);
    lemma_total_ranked(rows);
    lemma_total_summaries(window);
    lemma_limited(sorted, query.limit);
    lemma_total_take(sorted, listed.len() as int);
    assert forall|i: int| 0 <= i < listed.len() implies ({
        let pushes = window.filter(
            |event: EventModel|
                event.notification.repository_name == (#[trigger] listed[i]).repository_name,
        );
        &&& pushes.len() > 0
        &&& listed[i].push_count == pushes.len()
        &&& listed[i].latest_sequence == pushes.last().sequence
        &&& listed[i].latest_received_at == pushes.last().notification.received_at
        &&& forall|k: int|
            0 <= k < pushes.len() ==> (#[trigger] pushes[k]).sequence <= listed[i].latest_sequence
    }) by {
        let row = listed[i];
        assert(listed.contains(row));
        let pushes = pushes_to(window, row.repository_name);
        let same = |event: EventModel| event.notification.repository_name == row.repository_name;
        order::lemma_filters_agree(
            window,
            same,
            |event: EventModel| event.notification.repository_name == row.repository_name,
        );
        lemma_pushes_bounded(window, row.repository_name);
        lemma_last_push_latest(events, query, row.repository_name);
        assert(pushes =~= window.filter(same));
    }
    lemma_distinct_ranked(window);
    assert forall|i: int, j: int| 0 <= i < j < listed.len() implies (
    #[trigger] listed[i]).repository_name != (#[trigger] listed[j]).repository_name by {
        assert(listed[i] == sorted[i] && listed[j] == sorted[j]);
    }
    assert forall|i: int, j: int| 0 <= i < j < listed.len() implies ({
        let first = #[trigger] listed[i];
        let second = #[trigger] listed[j];
        ||| text::text_precedes(second.latest_received_at, first.latest_received_at)
        ||| first.latest_received_at == second.latest_received_at && first.latest_sequence
            > second.latest_sequence
        ||| first.latest_received_at == second.latest_received_at && first.latest_sequence
            == second.latest_sequence && text::text_precedes(
            first.repository_name,
            second.repository_name,
        )
    }) by {
        let first = listed[i];
        let second = listed[j];
        assert(first.repository_name != second.repository_name);
        assert(!RecentRepository::ranks_before(second, first));
        text::lemma_precedes_total(first.repository_name, second.repository_name);
        if first.latest_received_at != second.latest_received_at {
            text::lemma_precedes_total(first.latest_received_at, second.latest_received_at);
        }
    }
    assert forall|k: int, i: int|
        0 <= k < window.len() && 0 <= i < listed.len() && (forall|l: int|
            0 <= l < listed.len() ==> (#[trigger] listed[l]).repository_name
                != window[k].notification.repository_name) implies ({
        let last = window.filter(
            |event: EventModel|
                event.notification.repository_name == (
                #[trigger] window[k]).notification.repository_name,
        ).last();
        let row = #[trigger] listed[i];
        ||| text::text_precedes(last.notification.received_at, row.latest_received_at)
        ||| row.latest_received_at == last.notification.received_at && row.latest_sequence
            >= last.sequence
    }) by {
        let name = window[k].notification.repository_name;
        let to_name = |event: EventModel| event.notification.repository_name == name;
        window.lemma_filter_contains(to_name, k);
        assert(pushes_to(window, name) =~= window.filter(to_name));
        assert(names.contains(name));
        let at = choose|at: int| 0 <= at < names.len() && names[at] == name;
        assert(rows[at] == push_summary(window, name));
        assert(rows.contains(rows[at]));
        assert(sorted.contains(rows[at]));
        let place = choose|place: int| 0 <= place < sorted.len() && sorted[place] == rows[at];
        if place < listed.len() {
            assert(listed[place].repository_name == name);
        }
        assert(sorted[i] == listed[i]);
        assert(!RecentRepository::ranks_before(sorted[place], sorted[i]));
        if listed[i].latest_received_at != rows[at].latest_received_at {
            text::lemma_precedes_total(
                listed[i].latest_received_at,
                rows[at].latest_received_at,
            );
        }
        order::lemma_filters_agree(
            window,
            to_name,
            |event: EventModel|
                event.notification.repository_name == window[k].notification.repository_name,
        );
    }
    if listed.len() < query.limit {
        assert(listed =~= sorted);
        assert forall|k: int| 0 <= k < window.len() implies exists|i: int|
            0 <= i < listed.len() && (#[trigger] listed[i]).repository_name == (
            #[trigger] window[k]).notification.repository_name by {
            let name = window[k].notification.repository_name;
            let to_name = |event: EventModel| event.notification.repository_name == name;
            window.lemma_filter_contains(to_name, k);
            assert(pushes_to(window, name) =~= window.filter(to_name));
            assert(names.contains(name));
            let at = choose|at: int| 0 <= at < names.len() && names[at] == name;
            assert(rows[at].repository_name == name);
            assert(rows.contains(rows[at]));
            assert(sorted.contains(rows[at]));
            let i = choose|i: int| 0 <= i < sorted.len() && sorted[i] == rows[at];
            assert(listed[i].repository_name == name);
        }
    }
}

proof fn lemma_total_take(rows: Seq<RecentRepositoryModel>, count: int)
    requires
        0 <= count <= rows.len(),
    ensures
        total_pushes(rows.take(count)) <= total_pushes(rows),
    decreases rows.len(),
{
    if count < rows.len() {
        assert(rows.drop_last().take(count) =~= rows.take(count));
        lemma_total_take(rows.drop_last(), count);
    } else {
        assert(rows.take(count) =~= rows);
    }
}

proof fn lemma_distinct_ranked(window: Seq<EventModel>)
    ensures
        ({
            let sorted = order::ranked::<RecentRepository>(push_summaries(window));
            forall|i: int, j: int|
                0 <= i < j < sorted.len() ==> (#[trigger] sorted[i]).repository_name != (
                #[trigger] sorted[j]).repository_name
        }),
{
    let names = pushed_names(window);
    let rows = push_summaries(window);
    let sorted = order::ranked::<RecentRepository>(rows);
    lemma_pushed_names(window);
    order::lemma_ranked::<RecentRepository>(rows);
    order::lemma_ranked_permutes::<RecentRepository>(rows);
    assert(rows.no_duplicates()) by {
        assert forall|i: int, j: int| 0 <= i < j < rows.len() implies rows[i] != rows[j] by {
            assert(rows[i].repository_name == names[i] && rows[j].repository_name == names[j]);
        }
    }
    rows.lemma_multiset_has_no_duplicates();
    sorted.lemma_multiset_has_no_duplicates_conv();
    assert forall|i: int, j: int| 0 <= i < j < sorted.len() implies (
    #[trigger] sorted[i]).repository_name != (#[trigger] sorted[j]).repository_name by {
        assert(sorted.contains(sorted[i]) && sorted.contains(sorted[j]));
        let a = choose|a: int| 0 <= a < rows.len() && rows[a] == sorted[i];
        let b = choose|b: int| 0 <= b < rows.len() && rows[b] == sorted[j];
        assert(rows[a].repository_name == names[a] && rows[b].repository_name == names[b]);
        assert(a != b);
    }
}

proof fn lemma_filter_members<T>(items: Seq<T>, wanted: spec_fn(T) -> bool)
    ensures
        forall|item: T| #[trigger]
            items.filter(wanted).contains(item) <==> items.contains(item) && wanted(item),
    decreases items.len(),
{
    broadcast use Seq::lemma_filter_push;

    if items.len() == 0 {
        assert(items.filter(wanted) =~= items);
    } else {
        let earlier = items.drop_last();
        let last = items.last();
        lemma_filter_members(earlier, wanted);
        assert(items =~= earlier.push(last));
        let kept = earlier.filter(wanted);
        let all = items.filter(wanted);
        assert(all == if wanted(last) {
            kept.push(last)
        } else {
            kept
        });
        assert forall|item: T| #[trigger] all.contains(item) <==> items.contains(item) && wanted(
            item,
        ) by {
            assert(kept.contains(item) <==> earlier.contains(item) && wanted(item));
            if all.contains(item) {
                let i = choose|i: int| 0 <= i < all.len() && all[i] == item;
                if i < kept.len() {
                    assert(kept[i] == item);
                    let k = choose|k: int| 0 <= k < earlier.len() && earlier[k] == item;
                    assert(items[k] == item);
                } else {
                    assert(items[items.len() - 1] == item);
                }
            }
            if items.contains(item) && wanted(item) {
                let k = choose|k: int| 0 <= k < items.len() && items[k] == item;
                if k < earlier.len() {
                    assert(earlier[k] == item);
                    let i = choose|i: int| 0 <= i < kept.len() && kept[i] == item;
                    assert(all[i] == item);
                } else {
                    assert(all[all.len() - 1] == item);
                }
            }
        }
    }
}

proof fn lemma_filter_none<T>(items: Seq<T>, wanted: spec_fn(T) -> bool)
    requires
        forall|i: int| 0 <= i < items.len() ==> !wanted(#[trigger] items[i]),
    ensures
        items.filter(wanted) == Seq::<T>::empty(),
{
    lemma_filter_members(items, wanted);
    let kept = items.filter(wanted);
    if kept.len() > 0 {
        assert(kept.contains(kept[0]));
        let i = choose|i: int| 0 <= i < items.len() && items[i] == kept[0];
        assert(!wanted(items[i]));
    }
    assert(kept =~= Seq::<T>::empty());
}

/// A commit passes the filters that a query names exactly where it passes each of
/// them; a filter that is not named is passed by every commit.
pub proof fn lemma_filters_on_their_own(
    commit: &StoredCommit,
    repository_name: &Option<Name>,
    since_received_at: &Option<Timestamp>,
    until_received_at: &Option<Timestamp>,
    passes: bool,
)
    requires
        call_ensures(
            commit_matches_common_filters,
            (commit, repository_name, since_received_at, until_received_at),
            passes,
        ),
    ensures
        passes <==> {
            &&& repository_name matches Some(name) ==> commit.repository_name@ == name@
            &&& since_received_at matches Some(since) ==> !text::text_precedes(
                commit.received_at@,
                since@,
            )
            &&& until_received_at matches Some(until) ==> !text::text_precedes(
                until@,
                commit.received_at@,
            )
        },
{
}

} // verus!
