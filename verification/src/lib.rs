//! Repository ledger: a typed record of what was pushed to a Git server.
pub mod client;
pub mod configuration;
pub mod contract;
pub mod daemon;
pub mod daemon_command;
pub mod error;
pub mod frame;
pub mod ledger;
pub mod meta_contract;
pub mod model;
pub mod nexus;
pub mod notation;
pub mod order;
pub mod path;
pub mod queries;
pub mod records;
pub mod service;
pub mod spool;
pub mod store;
pub mod table;
pub mod text;

pub use configuration::{Configuration, ConfigurationError};
pub use daemon::{
    RepositoryLedgerDaemonError, RepositoryLedgerEngine, RepositoryLedgerProcessDaemon,
};
pub use daemon_command::{
    ConfigurationWriteRequest, RepositoryLedgerDaemonCommand,
    RepositoryLedgerDaemonConfigurationFile,
};
pub use error::{Error, Result};
pub use records::{
    StoredCommit, StoredEvent, StoredMirrorPolicy, StoredRegistration, StoredSpoolDirectoryPolicy,
};
pub use store::{LedgerHistoryRetention, Store, StoreSnapshot};
