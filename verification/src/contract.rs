//! The ordinary contract: what a receive hook reports, what a reader asks, and
//! what the ledger answers.
use vstd::prelude::*;

use crate::model;
use crate::model::{duplicate_all, duplicate_optional, Duplicate};
use crate::text::Text;

verus! {

#[derive(Debug, PartialEq, Eq)]
pub struct NameKind;

/// The name of a repository.
pub type Name = Text<NameKind>;

#[derive(Debug, PartialEq, Eq)]
pub struct GitoliteUserKind;

/// The Gitolite user who pushed.
pub type GitoliteUser = Text<GitoliteUserKind>;

#[derive(Debug, PartialEq, Eq)]
pub struct TimestampKind;

/// A time as UTC text whose order as text is its order in time.
pub type Timestamp = Text<TimestampKind>;

#[derive(Debug, PartialEq, Eq)]
pub struct ObjectIdentifierKind;

/// The identifier of a Git object.
pub type ObjectIdentifier = Text<ObjectIdentifierKind>;

#[derive(Debug, PartialEq, Eq)]
pub struct RefNameKind;

/// The name of a Git ref.
pub type RefName = Text<RefNameKind>;

#[derive(Debug, PartialEq, Eq)]
pub struct CommitMessageKind;

/// The message of a commit.
pub type CommitMessage = Text<CommitMessageKind>;

#[derive(Debug, PartialEq, Eq)]
pub struct FileStatusKind;

/// How a commit changed a file, as Git letters it.
pub type FileStatus = Text<FileStatusKind>;

#[derive(Debug, PartialEq, Eq)]
pub struct FilePathKind;

/// The path of a file inside its repository.
pub type FilePath = Text<FilePathKind>;

#[derive(Debug, PartialEq, Eq)]
pub struct TextSearchKind;

/// A text to look for, whatever its case.
pub type TextSearch = Text<TextSearchKind>;

#[derive(Debug, PartialEq, Eq)]
pub struct FilesystemPathKind;

/// A path on the machine that runs the daemon.
pub type FilesystemPath = Text<FilesystemPathKind>;

/// The number of an event in the ledger.
#[derive(Debug, Clone, Copy, PartialEq, Eq, PartialOrd, Ord)]
pub struct EventSequence {
    value: u64,
}

impl View for EventSequence {
    type V = u64;

    closed spec fn view(&self) -> u64 {
        self.value
    }
}

impl EventSequence {
    pub fn new(value: u64) -> (number: Self)
        ensures
            number@ == value,
    {
        Self { value }
    }

    pub fn into_u64(self) -> (value: u64)
        ensures
            value == self@,
    {
        self.value
    }
}

/// How many items an answer may hold; also a count of pushes.
#[derive(Debug, Clone, Copy, PartialEq, Eq, PartialOrd, Ord)]
pub struct QueryLimit {
    value: u64,
}

impl View for QueryLimit {
    type V = u64;

    closed spec fn view(&self) -> u64 {
        self.value
    }
}

impl QueryLimit {
    pub fn new(value: u64) -> (number: Self)
        ensures
            number@ == value,
    {
        Self { value }
    }

    pub fn into_u64(self) -> (value: u64)
        ensures
            value == self@,
    {
        self.value
    }
}

/// The permission bits of a socket file.
#[derive(Debug, Clone, Copy, PartialEq, Eq, PartialOrd, Ord)]
pub struct SocketMode {
    value: u32,
}

impl View for SocketMode {
    type V = u32;

    closed spec fn view(&self) -> u32 {
        self.value
    }
}

impl SocketMode {
    pub fn new(value: u32) -> (number: Self)
        ensures
            number@ == value,
    {
        Self { value }
    }

    pub fn into_u32(self) -> (value: u32)
        ensures
            value == self@,
    {
        self.value
    }
}

/// The role of a registered repository.
#[derive(Debug, Clone, Copy, PartialEq, Eq, Structural)]
pub enum Class {
    RuntimeComponent,
    OrdinarySignalContract,
    MetaSignalContract,
}

/// One ref that a push moved.
#[derive(Debug, PartialEq, Eq)]
pub struct RefUpdate {
    pub old_object_identifier: ObjectIdentifier,
    pub new_object_identifier: ObjectIdentifier,
    pub ref_name: RefName,
}

/// The model of a [`RefUpdate`].
#[verifier::ext_equal]
pub struct RefUpdateModel {
    pub old_object_identifier: Seq<char>,
    pub new_object_identifier: Seq<char>,
    pub ref_name: Seq<char>,
}

impl View for RefUpdate {
    type V = RefUpdateModel;

    open spec fn view(&self) -> RefUpdateModel {
        RefUpdateModel {
            old_object_identifier: self.old_object_identifier@,
            new_object_identifier: self.new_object_identifier@,
            ref_name: self.ref_name@,
        }
    }
}

impl Duplicate for RefUpdate {
    fn duplicate(&self) -> (copy: Self) {
        Self {
            old_object_identifier: self.old_object_identifier.duplicate(),
            new_object_identifier: self.new_object_identifier.duplicate(),
            ref_name: self.ref_name.duplicate(),
        }
    }
}

/// What the receive hook reports of one push.
#[derive(Debug, PartialEq, Eq)]
pub struct ReceiveHookNotification {
    pub repository_name: Name,
    pub gitolite_user: GitoliteUser,
    pub received_at: Timestamp,
    pub daemon_socket_present: bool,
    pub ref_updates: Vec<RefUpdate>,
}

/// The model of a [`ReceiveHookNotification`].
#[verifier::ext_equal]
pub struct ReceiveHookNotificationModel {
    pub repository_name: Seq<char>,
    pub gitolite_user: Seq<char>,
    pub received_at: Seq<char>,
    pub daemon_socket_present: bool,
    pub ref_updates: Seq<RefUpdateModel>,
}

impl View for ReceiveHookNotification {
    type V = ReceiveHookNotificationModel;

    open spec fn view(&self) -> ReceiveHookNotificationModel {
        ReceiveHookNotificationModel {
            repository_name: self.repository_name@,
            gitolite_user: self.gitolite_user@,
            received_at: self.received_at@,
            daemon_socket_present: self.daemon_socket_present,
            ref_updates: model::models(self.ref_updates@),
        }
    }
}

impl Duplicate for ReceiveHookNotification {
    fn duplicate(&self) -> (copy: Self) {
        Self {
            repository_name: self.repository_name.duplicate(),
            gitolite_user: self.gitolite_user.duplicate(),
            received_at: self.received_at.duplicate(),
            daemon_socket_present: self.daemon_socket_present,
            ref_updates: duplicate_all(&self.ref_updates),
        }
    }
}

/// One file that a commit changed.
#[derive(Debug, PartialEq, Eq)]
pub struct FileChange {
    pub status: FileStatus,
    pub path: FilePath,
    pub old_path: Option<FilePath>,
}

/// The model of a [`FileChange`].
#[verifier::ext_equal]
pub struct FileChangeModel {
    pub status: Seq<char>,
    pub path: Seq<char>,
    pub old_path: Option<Seq<char>>,
}

impl View for FileChange {
    type V = FileChangeModel;

    open spec fn view(&self) -> FileChangeModel {
        FileChangeModel {
            status: self.status@,
            path: self.path@,
            old_path: model::optional_model(self.old_path),
        }
    }
}

impl Duplicate for FileChange {
    fn duplicate(&self) -> (copy: Self) {
        Self {
            status: self.status.duplicate(),
            path: self.path.duplicate(),
            old_path: duplicate_optional(&self.old_path),
        }
    }
}

/// One commit of a push, with the files that it changed.
#[derive(Debug, PartialEq, Eq)]
pub struct CommitObservation {
    pub object_identifier: ObjectIdentifier,
    pub ref_name: RefName,
    pub commit_timestamp: Timestamp,
    pub message: CommitMessage,
    pub changed_files: Vec<FileChange>,
}

/// The model of a [`CommitObservation`].
#[verifier::ext_equal]
pub struct CommitObservationModel {
    pub object_identifier: Seq<char>,
    pub ref_name: Seq<char>,
    pub commit_timestamp: Seq<char>,
    pub message: Seq<char>,
    pub changed_files: Seq<FileChangeModel>,
}

impl View for CommitObservation {
    type V = CommitObservationModel;

    open spec fn view(&self) -> CommitObservationModel {
        CommitObservationModel {
            object_identifier: self.object_identifier@,
            ref_name: self.ref_name@,
            commit_timestamp: self.commit_timestamp@,
            message: self.message@,
            changed_files: model::models(self.changed_files@),
        }
    }
}

impl Duplicate for CommitObservation {
    fn duplicate(&self) -> (copy: Self) {
        Self {
            object_identifier: self.object_identifier.duplicate(),
            ref_name: self.ref_name.duplicate(),
            commit_timestamp: self.commit_timestamp.duplicate(),
            message: self.message.duplicate(),
            changed_files: duplicate_all(&self.changed_files),
        }
    }
}

/// A push together with the commits that it brought.
#[derive(Debug, PartialEq, Eq)]
pub struct PushObservation {
    pub notification: ReceiveHookNotification,
    pub commits: Vec<CommitObservation>,
}

/// The model of a [`PushObservation`].
#[verifier::ext_equal]
pub struct PushObservationModel {
    pub notification: ReceiveHookNotificationModel,
    pub commits: Seq<CommitObservationModel>,
}

impl View for PushObservation {
    type V = PushObservationModel;

    open spec fn view(&self) -> PushObservationModel {
        PushObservationModel {
            notification: self.notification@,
            commits: model::models(self.commits@),
        }
    }
}

/// A repository in the catalog.
#[derive(Debug, PartialEq, Eq)]
pub struct Registration {
    pub repository_name: Name,
    pub repository_class: Class,
}

/// The model of a [`Registration`].
#[verifier::ext_equal]
pub struct RegistrationModel {
    pub repository_name: Seq<char>,
    pub repository_class: Class,
}

impl View for Registration {
    type V = RegistrationModel;

    open spec fn view(&self) -> RegistrationModel {
        RegistrationModel {
            repository_name: self.repository_name@,
            repository_class: self.repository_class,
        }
    }
}

impl Duplicate for Registration {
    fn duplicate(&self) -> (copy: Self) {
        Self {
            repository_name: self.repository_name.duplicate(),
            repository_class: self.repository_class,
        }
    }
}

/// A recorded push.
#[derive(Debug, PartialEq, Eq)]
pub struct Event {
    pub sequence: EventSequence,
    pub notification: ReceiveHookNotification,
}

/// The model of a [`Event`].
#[verifier::ext_equal]
pub struct EventModel {
    pub sequence: u64,
    pub notification: ReceiveHookNotificationModel,
}

impl View for Event {
    type V = EventModel;

    open spec fn view(&self) -> EventModel {
        EventModel {
            sequence: self.sequence@,
            notification: self.notification@,
        }
    }
}

/// A recorded commit, without its file changes.
#[derive(Debug, PartialEq, Eq)]
pub struct Commit {
    pub repository_name: Name,
    pub received_at: Timestamp,
    pub sequence: EventSequence,
    pub object_identifier: ObjectIdentifier,
    pub ref_name: RefName,
    pub commit_timestamp: Timestamp,
    pub message: CommitMessage,
}

/// The model of a [`Commit`].
#[verifier::ext_equal]
pub struct CommitModel {
    pub repository_name: Seq<char>,
    pub received_at: Seq<char>,
    pub sequence: u64,
    pub object_identifier: Seq<char>,
    pub ref_name: Seq<char>,
    pub commit_timestamp: Seq<char>,
    pub message: Seq<char>,
}

impl View for Commit {
    type V = CommitModel;

    open spec fn view(&self) -> CommitModel {
        CommitModel {
            repository_name: self.repository_name@,
            received_at: self.received_at@,
            sequence: self.sequence@,
            object_identifier: self.object_identifier@,
            ref_name: self.ref_name@,
            commit_timestamp: self.commit_timestamp@,
            message: self.message@,
        }
    }
}

/// A recorded file change, with the commit and the push that brought it.
#[derive(Debug, PartialEq, Eq)]
pub struct ChangedFile {
    pub repository_name: Name,
    pub received_at: Timestamp,
    pub sequence: EventSequence,
    pub commit_object_identifier: ObjectIdentifier,
    pub ref_name: RefName,
    pub status: FileStatus,
    pub path: FilePath,
    pub old_path: Option<FilePath>,
}

/// The model of a [`ChangedFile`].
#[verifier::ext_equal]
pub struct ChangedFileModel {
    pub repository_name: Seq<char>,
    pub received_at: Seq<char>,
    pub sequence: u64,
    pub commit_object_identifier: Seq<char>,
    pub ref_name: Seq<char>,
    pub status: Seq<char>,
    pub path: Seq<char>,
    pub old_path: Option<Seq<char>>,
}

impl View for ChangedFile {
    type V = ChangedFileModel;

    open spec fn view(&self) -> ChangedFileModel {
        ChangedFileModel {
            repository_name: self.repository_name@,
            received_at: self.received_at@,
            sequence: self.sequence@,
            commit_object_identifier: self.commit_object_identifier@,
            ref_name: self.ref_name@,
            status: self.status@,
            path: self.path@,
            old_path: model::optional_model(self.old_path),
        }
    }
}

/// How often a repository was pushed to, and when last.
#[derive(Debug, PartialEq, Eq)]
pub struct RecentRepository {
    pub repository_name: Name,
    pub latest_received_at: Timestamp,
    pub latest_sequence: EventSequence,
    pub push_count: QueryLimit,
}

/// The model of a [`RecentRepository`].
#[verifier::ext_equal]
pub struct RecentRepositoryModel {
    pub repository_name: Seq<char>,
    pub latest_received_at: Seq<char>,
    pub latest_sequence: u64,
    pub push_count: u64,
}

impl View for RecentRepository {
    type V = RecentRepositoryModel;

    open spec fn view(&self) -> RecentRepositoryModel {
        RecentRepositoryModel {
            repository_name: self.repository_name@,
            latest_received_at: self.latest_received_at@,
            latest_sequence: self.latest_sequence@,
            push_count: self.push_count@,
        }
    }
}

/// Asks for recorded pushes.
#[derive(Debug, PartialEq, Eq)]
pub struct Events {
    pub repository_name: Option<Name>,
    pub since_sequence: Option<EventSequence>,
    pub limit: QueryLimit,
}

/// The model of a [`Events`].
#[verifier::ext_equal]
pub struct EventsModel {
    pub repository_name: Option<Seq<char>>,
    pub since_sequence: Option<u64>,
    pub limit: u64,
}

impl View for Events {
    type V = EventsModel;

    open spec fn view(&self) -> EventsModel {
        EventsModel {
            repository_name: model::optional_model(self.repository_name),
            since_sequence: model::optional_model(self.since_sequence),
            limit: self.limit@,
        }
    }
}

/// Asks which repositories were pushed to lately.
#[derive(Debug, PartialEq, Eq)]
pub struct RecentRepositories {
    pub since_received_at: Option<Timestamp>,
    pub limit: QueryLimit,
}

/// The model of a [`RecentRepositories`].
#[verifier::ext_equal]
pub struct RecentRepositoriesModel {
    pub since_received_at: Option<Seq<char>>,
    pub limit: u64,
}

impl View for RecentRepositories {
    type V = RecentRepositoriesModel;

    open spec fn view(&self) -> RecentRepositoriesModel {
        RecentRepositoriesModel {
            since_received_at: model::optional_model(self.since_received_at),
            limit: self.limit@,
        }
    }
}

/// Asks which files changed in a window.
#[derive(Debug, PartialEq, Eq)]
pub struct ChangedFiles {
    pub repository_name: Option<Name>,
    pub since_received_at: Option<Timestamp>,
    pub until_received_at: Option<Timestamp>,
    pub path_contains: Option<TextSearch>,
    pub limit: QueryLimit,
}

/// The model of a [`ChangedFiles`].
#[verifier::ext_equal]
pub struct ChangedFilesModel {
    pub repository_name: Option<Seq<char>>,
    pub since_received_at: Option<Seq<char>>,
    pub until_received_at: Option<Seq<char>>,
    pub path_contains: Option<Seq<char>>,
    pub limit: u64,
}

impl View for ChangedFiles {
    type V = ChangedFilesModel;

    open spec fn view(&self) -> ChangedFilesModel {
        ChangedFilesModel {
            repository_name: model::optional_model(self.repository_name),
            since_received_at: model::optional_model(self.since_received_at),
            until_received_at: model::optional_model(self.until_received_at),
            path_contains: model::optional_model(self.path_contains),
            limit: self.limit@,
        }
    }
}

/// Searches the messages of recorded commits.
#[derive(Debug, PartialEq, Eq)]
pub struct CommitMessages {
    pub repository_name: Option<Name>,
    pub since_received_at: Option<Timestamp>,
    pub until_received_at: Option<Timestamp>,
    pub message_contains: Option<TextSearch>,
    pub limit: QueryLimit,
}

/// The model of a [`CommitMessages`].
#[verifier::ext_equal]
pub struct CommitMessagesModel {
    pub repository_name: Option<Seq<char>>,
    pub since_received_at: Option<Seq<char>>,
    pub until_received_at: Option<Seq<char>>,
    pub message_contains: Option<Seq<char>>,
    pub limit: u64,
}

impl View for CommitMessages {
    type V = CommitMessagesModel;

    open spec fn view(&self) -> CommitMessagesModel {
        CommitMessagesModel {
            repository_name: model::optional_model(self.repository_name),
            since_received_at: model::optional_model(self.since_received_at),
            until_received_at: model::optional_model(self.until_received_at),
            message_contains: model::optional_model(self.message_contains),
            limit: self.limit@,
        }
    }
}

/// Asks for the catalog of registered repositories.
#[derive(Debug, Clone, Copy, PartialEq, Eq)]
pub struct Catalog;

/// A question to the ledger.
#[derive(Debug, PartialEq, Eq)]
pub enum Query {
    Events(Events),
    RecentRepositories(RecentRepositories),
    ChangedFiles(ChangedFiles),
    CommitMessages(CommitMessages),
    Catalog(Catalog),
}

/// The model of a [`Query`].
#[verifier::ext_equal]
pub enum QueryModel {
    Events(EventsModel),
    RecentRepositories(RecentRepositoriesModel),
    ChangedFiles(ChangedFilesModel),
    CommitMessages(CommitMessagesModel),
    Catalog,
}

impl View for Query {
    type V = QueryModel;

    open spec fn view(&self) -> QueryModel {
        match self {
            Query::Events(value) => QueryModel::Events(value@),
            Query::RecentRepositories(value) => QueryModel::RecentRepositories(value@),
            Query::ChangedFiles(value) => QueryModel::ChangedFiles(value@),
            Query::CommitMessages(value) => QueryModel::CommitMessages(value@),
            Query::Catalog(_) => QueryModel::Catalog,
        }
    }
}

/// Recorded pushes, oldest first.
#[derive(Debug, PartialEq, Eq)]
pub struct EventListing {
    pub events: Vec<Event>,
}

impl View for EventListing {
    type V = Seq<EventModel>;

    open spec fn view(&self) -> Seq<EventModel> {
        model::models(self.events@)
    }
}

/// Repositories, the latest pushed to first.
#[derive(Debug, PartialEq, Eq)]
pub struct RecentRepositoriesListing {
    pub repositories: Vec<RecentRepository>,
}

impl View for RecentRepositoriesListing {
    type V = Seq<RecentRepositoryModel>;

    open spec fn view(&self) -> Seq<RecentRepositoryModel> {
        model::models(self.repositories@)
    }
}

/// File changes, latest first.
#[derive(Debug, PartialEq, Eq)]
pub struct ChangedFileListing {
    pub files: Vec<ChangedFile>,
}

impl View for ChangedFileListing {
    type V = Seq<ChangedFileModel>;

    open spec fn view(&self) -> Seq<ChangedFileModel> {
        model::models(self.files@)
    }
}

/// Commits, latest first.
#[derive(Debug, PartialEq, Eq)]
pub struct CommitListing {
    pub commits: Vec<Commit>,
}

impl View for CommitListing {
    type V = Seq<CommitModel>;

    open spec fn view(&self) -> Seq<CommitModel> {
        model::models(self.commits@)
    }
}

/// Registered repositories, by name.
#[derive(Debug, PartialEq, Eq)]
pub struct CatalogListing {
    pub repositories: Vec<Registration>,
}

impl View for CatalogListing {
    type V = Seq<RegistrationModel>;

    open spec fn view(&self) -> Seq<RegistrationModel> {
        model::models(self.repositories@)
    }
}

/// The answer to a [`Query`].
#[derive(Debug, PartialEq, Eq)]
pub enum QueryResult {
    Events(EventListing),
    RecentRepositories(RecentRepositoriesListing),
    ChangedFiles(ChangedFileListing),
    Commits(CommitListing),
    Catalog(CatalogListing),
}

/// The model of a [`QueryResult`].
#[verifier::ext_equal]
pub enum QueryResultModel {
    Events(Seq<EventModel>),
    RecentRepositories(Seq<RecentRepositoryModel>),
    ChangedFiles(Seq<ChangedFileModel>),
    Commits(Seq<CommitModel>),
    Catalog(Seq<RegistrationModel>),
}

impl View for QueryResult {
    type V = QueryResultModel;

    open spec fn view(&self) -> QueryResultModel {
        match self {
            QueryResult::Events(value) => QueryResultModel::Events(value@),
            QueryResult::RecentRepositories(value) => QueryResultModel::RecentRepositories(value@),
            QueryResult::ChangedFiles(value) => QueryResultModel::ChangedFiles(value@),
            QueryResult::Commits(value) => QueryResultModel::Commits(value@),
            QueryResult::Catalog(value) => QueryResultModel::Catalog(value@),
        }
    }
}

/// Which query a [`Query`] is.
#[derive(Debug, Clone, Copy, PartialEq, Eq, Structural)]
pub enum QueryKind {
    Events,
    RecentRepositories,
    ChangedFiles,
    CommitMessages,
    Catalog,
}

/// Which query a query's model is.
pub open spec fn query_kind(query: QueryModel) -> QueryKind {
    match query {
        QueryModel::Events(_) => QueryKind::Events,
        QueryModel::RecentRepositories(_) => QueryKind::RecentRepositories,
        QueryModel::ChangedFiles(_) => QueryKind::ChangedFiles,
        QueryModel::CommitMessages(_) => QueryKind::CommitMessages,
        QueryModel::Catalog => QueryKind::Catalog,
    }
}

impl Query {
    pub fn kind(&self) -> (kind: QueryKind)
        ensures
            kind == query_kind(self@),
    {
        match self {
            Query::Events(_) => QueryKind::Events,
            Query::RecentRepositories(_) => QueryKind::RecentRepositories,
            Query::ChangedFiles(_) => QueryKind::ChangedFiles,
            Query::CommitMessages(_) => QueryKind::CommitMessages,
            Query::Catalog(_) => QueryKind::Catalog,
        }
    }
}

/// A request of the ordinary contract.
#[derive(Debug, PartialEq, Eq)]
pub enum Operation {
    Receive(ReceiveHookNotification),
    Observe(PushObservation),
    Query(Query),
}

/// The model of a [`Operation`].
#[verifier::ext_equal]
pub enum OperationModel {
    Receive(ReceiveHookNotificationModel),
    Observe(PushObservationModel),
    Query(QueryModel),
}

impl View for Operation {
    type V = OperationModel;

    open spec fn view(&self) -> OperationModel {
        match self {
            Operation::Receive(value) => OperationModel::Receive(value@),
            Operation::Observe(value) => OperationModel::Observe(value@),
            Operation::Query(value) => OperationModel::Query(value@),
        }
    }
}

/// Which operation an [`Operation`] is.
#[derive(Debug, Clone, Copy, PartialEq, Eq, Structural)]
pub enum OperationKind {
    Receive,
    Observe,
    Query,
}

/// Which operation an operation's model is.
pub open spec fn operation_kind(operation: OperationModel) -> OperationKind {
    match operation {
        OperationModel::Receive(_) => OperationKind::Receive,
        OperationModel::Observe(_) => OperationKind::Observe,
        OperationModel::Query(_) => OperationKind::Query,
    }
}

impl Operation {
    pub fn operation_kind(&self) -> (kind: OperationKind)
        ensures
            kind == operation_kind(self@),
    {
        match self {
            Operation::Receive(_) => OperationKind::Receive,
            Operation::Observe(_) => OperationKind::Observe,
            Operation::Query(_) => OperationKind::Query,
        }
    }
}

/// The receipt of a recorded push.
#[derive(Debug, Clone, Copy, PartialEq, Eq)]
pub struct EventRecorded {
    pub sequence: EventSequence,
}

impl View for EventRecorded {
    type V = u64;

    open spec fn view(&self) -> u64 {
        self.sequence@
    }
}

/// Why a request was not carried out.
#[derive(Debug, Clone, Copy, PartialEq, Eq, Structural)]
pub enum UnimplementedReason {
    StoreUnavailable,
}

/// Says which request was not carried out, and why.
#[derive(Debug, Clone, Copy, PartialEq, Eq)]
pub struct RequestUnimplemented {
    pub operation: OperationKind,
    pub query: Option<QueryKind>,
    pub reason: UnimplementedReason,
}

/// The ledger's reply to an [`Operation`].
#[derive(Debug, PartialEq, Eq)]
pub enum Reply {
    EventRecorded(EventRecorded),
    QueryResult(QueryResult),
    RequestUnimplemented(RequestUnimplemented),
}

/// The model of a [`Reply`].
#[verifier::ext_equal]
pub enum ReplyModel {
    EventRecorded(u64),
    QueryResult(QueryResultModel),
    RequestUnimplemented(RequestUnimplemented),
}

impl View for Reply {
    type V = ReplyModel;

    open spec fn view(&self) -> ReplyModel {
        match self {
            Reply::EventRecorded(recorded) => ReplyModel::EventRecorded(recorded@),
            Reply::QueryResult(result) => ReplyModel::QueryResult(result@),
            Reply::RequestUnimplemented(request) => ReplyModel::RequestUnimplemented(*request),
        }
    }
}

/// What the daemon is started with: its sockets, its store and its spool.
#[derive(Debug, PartialEq, Eq)]
pub struct DaemonConfiguration {
    pub ordinary_socket_path: FilesystemPath,
    pub ordinary_socket_mode: SocketMode,
    pub meta_socket_path: FilesystemPath,
    pub meta_socket_mode: SocketMode,
    pub store_path: FilesystemPath,
    pub spool_directory: FilesystemPath,
}

/// The model of a [`DaemonConfiguration`].
#[verifier::ext_equal]
pub struct DaemonConfigurationModel {
    pub ordinary_socket_path: Seq<char>,
    pub ordinary_socket_mode: u32,
    pub meta_socket_path: Seq<char>,
    pub meta_socket_mode: u32,
    pub store_path: Seq<char>,
    pub spool_directory: Seq<char>,
}

impl View for DaemonConfiguration {
    type V = DaemonConfigurationModel;

    open spec fn view(&self) -> DaemonConfigurationModel {
        DaemonConfigurationModel {
            ordinary_socket_path: self.ordinary_socket_path@,
            ordinary_socket_mode: self.ordinary_socket_mode@,
            meta_socket_path: self.meta_socket_path@,
            meta_socket_mode: self.meta_socket_mode@,
            store_path: self.store_path@,
            spool_directory: self.spool_directory@,
        }
    }
}

impl Duplicate for DaemonConfiguration {
    fn duplicate(&self) -> (copy: Self) {
        Self {
            ordinary_socket_path: self.ordinary_socket_path.duplicate(),
            ordinary_socket_mode: self.ordinary_socket_mode,
            meta_socket_path: self.meta_socket_path.duplicate(),
            meta_socket_mode: self.meta_socket_mode,
            store_path: self.store_path.duplicate(),
            spool_directory: self.spool_directory.duplicate(),
        }
    }
}

impl RefUpdate {
    /// The model says what the value says, field by field.
    pub proof fn lemma_modelled(&self)
        ensures
            self@.old_object_identifier == self.old_object_identifier@,
            self@.new_object_identifier == self.new_object_identifier@,
            self@.ref_name == self.ref_name@,
    {
    }
}

impl ReceiveHookNotification {
    /// The model says what the value says, field by field.
    pub proof fn lemma_modelled(&self)
        ensures
            self@.repository_name == self.repository_name@,
            self@.gitolite_user == self.gitolite_user@,
            self@.received_at == self.received_at@,
            self@.daemon_socket_present == self.daemon_socket_present,
            self@.ref_updates.len() == self.ref_updates@.len(),
            forall|i: int| 0 <= i < self.ref_updates@.len() ==> #[trigger] self@.ref_updates[i] == self.ref_updates@[i]@,
    {
    }
}

impl FileChange {
    /// The model says what the value says, field by field.
    pub proof fn lemma_modelled(&self)
        ensures
            self@.status == self.status@,
            self@.path == self.path@,
            self@.old_path == match self.old_path {
                Some(value) => Some(value@),
                None => None,
            },
    {
    }
}

impl CommitObservation {
    /// The model says what the value says, field by field.
    pub proof fn lemma_modelled(&self)
        ensures
            self@.object_identifier == self.object_identifier@,
            self@.ref_name == self.ref_name@,
            self@.commit_timestamp == self.commit_timestamp@,
            self@.message == self.message@,
            self@.changed_files.len() == self.changed_files@.len(),
            forall|i: int| 0 <= i < self.changed_files@.len() ==> #[trigger] self@.changed_files[i] == self.changed_files@[i]@,
    {
    }
}

impl PushObservation {
    /// The model says what the value says, field by field.
    pub proof fn lemma_modelled(&self)
        ensures
            self@.notification == self.notification@,
            self@.commits.len() == self.commits@.len(),
            forall|i: int| 0 <= i < self.commits@.len() ==> #[trigger] self@.commits[i] == self.commits@[i]@,
    {
    }
}

impl Registration {
    /// The model says what the value says, field by field.
    pub proof fn lemma_modelled(&self)
        ensures
            self@.repository_name == self.repository_name@,
            self@.repository_class == self.repository_class,
    {
    }
}

impl Event {
    /// The model says what the value says, field by field.
    pub proof fn lemma_modelled(&self)
        ensures
            self@.sequence == self.sequence@,
            self@.notification == self.notification@,
    {
    }
}

impl Commit {
    /// The model says what the value says, field by field.
    pub proof fn lemma_modelled(&self)
        ensures
            self@.repository_name == self.repository_name@,
            self@.received_at == self.received_at@,
            self@.sequence == self.sequence@,
            self@.object_identifier == self.object_identifier@,
            self@.ref_name == self.ref_name@,
            self@.commit_timestamp == self.commit_timestamp@,
            self@.message == self.message@,
    {
    }
}

impl ChangedFile {
    /// The model says what the value says, field by field.
    pub proof fn lemma_modelled(&self)
        ensures
            self@.repository_name == self.repository_name@,
            self@.received_at == self.received_at@,
            self@.sequence == self.sequence@,
            self@.commit_object_identifier == self.commit_object_identifier@,
            self@.ref_name == self.ref_name@,
            self@.status == self.status@,
            self@.path == self.path@,
            self@.old_path == match self.old_path {
                Some(value) => Some(value@),
                None => None,
            },
    {
    }
}

impl RecentRepository {
    /// The model says what the value says, field by field.
    pub proof fn lemma_modelled(&self)
        ensures
            self@.repository_name == self.repository_name@,
            self@.latest_received_at == self.latest_received_at@,
            self@.latest_sequence == self.latest_sequence@,
            self@.push_count == self.push_count@,
    {
    }
}

impl Events {
    /// The model says what the value says, field by field.
    pub proof fn lemma_modelled(&self)
        ensures
            self@.repository_name == match self.repository_name {
                Some(value) => Some(value@),
                None => None,
            },
            self@.since_sequence == match self.since_sequence {
                Some(value) => Some(value@),
                None => None,
            },
            self@.limit == self.limit@,
    {
    }
}

impl RecentRepositories {
    /// The model says what the value says, field by field.
    pub proof fn lemma_modelled(&self)
        ensures
            self@.since_received_at == match self.since_received_at {
                Some(value) => Some(value@),
                None => None,
            },
            self@.limit == self.limit@,
    {
    }
}

impl ChangedFiles {
    /// The model says what the value says, field by field.
    pub proof fn lemma_modelled(&self)
        ensures
            self@.repository_name == match self.repository_name {
                Some(value) => Some(value@),
                None => None,
            },
            self@.since_received_at == match self.since_received_at {
                Some(value) => Some(value@),
                None => None,
            },
            self@.until_received_at == match self.until_received_at {
                Some(value) => Some(value@),
                None => None,
            },
            self@.path_contains == match self.path_contains {
                Some(value) => Some(value@),
                None => None,
            },
            self@.limit == self.limit@,
    {
    }
}

impl CommitMessages {
    /// The model says what the value says, field by field.
    pub proof fn lemma_modelled(&self)
        ensures
            self@.repository_name == match self.repository_name {
                Some(value) => Some(value@),
                None => None,
            },
            self@.since_received_at == match self.since_received_at {
                Some(value) => Some(value@),
                None => None,
            },
            self@.until_received_at == match self.until_received_at {
                Some(value) => Some(value@),
                None => None,
            },
            self@.message_contains == match self.message_contains {
                Some(value) => Some(value@),
                None => None,
            },
            self@.limit == self.limit@,
    {
    }
}

impl EventListing {
    /// The model says what the value says, field by field.
    pub proof fn lemma_modelled(&self)
        ensures
            self@.len() == self.events@.len(),
            forall|i: int| 0 <= i < self.events@.len() ==> #[trigger] self@[i] == self.events@[i]@,
    {
    }
}

impl RecentRepositoriesListing {
    /// The model says what the value says, field by field.
    pub proof fn lemma_modelled(&self)
        ensures
            self@.len() == self.repositories@.len(),
            forall|i: int| 0 <= i < self.repositories@.len() ==> #[trigger] self@[i] == self.repositories@[i]@,
    {
    }
}

impl ChangedFileListing {
    /// The model says what the value says, field by field.
    pub proof fn lemma_modelled(&self)
        ensures
            self@.len() == self.files@.len(),
            forall|i: int| 0 <= i < self.files@.len() ==> #[trigger] self@[i] == self.files@[i]@,
    {
    }
}

impl CommitListing {
    /// The model says what the value says, field by field.
    pub proof fn lemma_modelled(&self)
        ensures
            self@.len() == self.commits@.len(),
            forall|i: int| 0 <= i < self.commits@.len() ==> #[trigger] self@[i] == self.commits@[i]@,
    {
    }
}

impl CatalogListing {
    /// The model says what the value says, field by field.
    pub proof fn lemma_modelled(&self)
        ensures
            self@.len() == self.repositories@.len(),
            forall|i: int| 0 <= i < self.repositories@.len() ==> #[trigger] self@[i] == self.repositories@[i]@,
    {
    }
}

impl EventRecorded {
    /// The model says what the value says, field by field.
    pub proof fn lemma_modelled(&self)
        ensures
            self@ == self.sequence@,
    {
    }
}

impl DaemonConfiguration {
    /// The model says what the value says, field by field.
    pub proof fn lemma_modelled(&self)
        ensures
            self@.ordinary_socket_path == self.ordinary_socket_path@,
            self@.ordinary_socket_mode == self.ordinary_socket_mode@,
            self@.meta_socket_path == self.meta_socket_path@,
            self@.meta_socket_mode == self.meta_socket_mode@,
            self@.store_path == self.store_path@,
            self@.spool_directory == self.spool_directory@,
    {
    }
}

impl Query {
    /// The model is of the same variant, and says what the value says.
    pub proof fn lemma_modelled(&self)
        ensures
            match *self {
                Query::Events(value) => self@ == QueryModel::Events(value@),
                Query::RecentRepositories(value) => self@ == QueryModel::RecentRepositories(value@),
                Query::ChangedFiles(value) => self@ == QueryModel::ChangedFiles(value@),
                Query::CommitMessages(value) => self@ == QueryModel::CommitMessages(value@),
                Query::Catalog(_) => self@ is Catalog,
            },
    {
    }
}

impl QueryResult {
    /// The model is of the same variant, and says what the value says.
    pub proof fn lemma_modelled(&self)
        ensures
            match *self {
                QueryResult::Events(value) => self@ == QueryResultModel::Events(value@),
                QueryResult::RecentRepositories(value) => self@ == QueryResultModel::RecentRepositories(value@),
                QueryResult::ChangedFiles(value) => self@ == QueryResultModel::ChangedFiles(value@),
                QueryResult::Commits(value) => self@ == QueryResultModel::Commits(value@),
                QueryResult::Catalog(value) => self@ == QueryResultModel::Catalog(value@),
            },
    {
    }
}

impl Operation {
    /// The model is of the same variant, and says what the value says.
    pub proof fn lemma_modelled(&self)
        ensures
            match *self {
                Operation::Receive(value) => self@ == OperationModel::Receive(value@),
                Operation::Observe(value) => self@ == OperationModel::Observe(value@),
                Operation::Query(value) => self@ == OperationModel::Query(value@),
            },
    {
    }
}

impl Reply {
    /// The model is of the same variant, and says what the value says.
    pub proof fn lemma_modelled(&self)
        ensures
            match *self {
                Reply::EventRecorded(value) => self@ == ReplyModel::EventRecorded(value@),
                Reply::QueryResult(value) => self@ == ReplyModel::QueryResult(value@),
                Reply::RequestUnimplemented(value) => self@ == ReplyModel::RequestUnimplemented(value),
            },
    {
    }
}

} // verus!
