//! The daemon's command line: one argument, which names the archive that holds the
//! configuration.
use vstd::prelude::*;

use crate::configuration;
use crate::configuration::{decode_configuration, encode_configuration, Configuration};
use crate::contract::{DaemonConfiguration, DaemonConfigurationModel, FilesystemPath, SocketMode};
use crate::error::{ArgumentError, Error, Result};
use crate::model::Duplicate;
use crate::path::UnixPath;

verus! {

/// What the argument of a program is.
#[derive(Debug, PartialEq, Eq)]
pub enum ComponentArgument {
    /// NOTA text.
    InlineNota(String),
    /// The path of a NOTA file.
    NotaFile(UnixPath),
    /// The path of a signal-encoded file.
    SignalFile(UnixPath),
}

/// The command line of the daemon: its argument, or why that was refused.
#[derive(Debug, PartialEq, Eq)]
pub struct RepositoryLedgerDaemonCommand {
    argument: core::result::Result<ComponentArgument, ArgumentError>,
}

impl RepositoryLedgerDaemonCommand {
    /// The argument of the command line, or why it was refused.
    pub closed spec fn argument(&self) -> core::result::Result<ComponentArgument, ArgumentError> {
        self.argument
    }

    pub fn from_argument(
        argument: core::result::Result<ComponentArgument, ArgumentError>,
    ) -> (command: Self)
        ensures
            command.argument() == argument,
    {
        RepositoryLedgerDaemonCommand { argument }
    }

    /// The file to read the configuration from. The daemon takes a signal-encoded
    /// file alone, never NOTA.
    pub fn configuration_file(self) -> (result: Result<RepositoryLedgerDaemonConfigurationFile>)
        ensures
            match self.argument() {
                Ok(ComponentArgument::SignalFile(path)) => result matches Ok(file) && file@
                    == path@,
                Ok(_) => result == Err::<RepositoryLedgerDaemonConfigurationFile, Error>(
                    Error::Argument(ArgumentError::ExpectedSignalFile),
                ),
                Err(refusal) => result == Err::<RepositoryLedgerDaemonConfigurationFile, Error>(
                    Error::Argument(refusal),
                ),
            },
    {
        match self.argument {
            Ok(ComponentArgument::SignalFile(path)) => Ok(
                RepositoryLedgerDaemonConfigurationFile::from_signal_file(path),
            ),
            Ok(ComponentArgument::InlineNota(_)) | Ok(ComponentArgument::NotaFile(_)) => {
                Err(Error::Argument(ArgumentError::ExpectedSignalFile))
            },
            Err(refusal) => Err(Error::Argument(refusal)),
        }
    }
}

/// A file that holds the archive of a configuration.
#[derive(Debug, PartialEq, Eq)]
pub struct RepositoryLedgerDaemonConfigurationFile {
    path: UnixPath,
}

impl View for RepositoryLedgerDaemonConfigurationFile {
    type V = Seq<u8>;

    closed spec fn view(&self) -> Seq<u8> {
        self.path@
    }
}

impl RepositoryLedgerDaemonConfigurationFile {
    pub fn from_signal_file(path: UnixPath) -> (file: Self)
        ensures
            file@ == path@,
    {
        RepositoryLedgerDaemonConfigurationFile { path }
    }

    pub fn new(path: UnixPath) -> (file: Self)
        ensures
            file@ == path@,
    {
        RepositoryLedgerDaemonConfigurationFile { path }
    }

    pub fn as_path(&self) -> (path: &UnixPath)
        ensures
            path@ == self@,
    {
        &self.path
    }

    /// Reads the configuration from the contents of the file, or from what is
    /// said of why it could not be read.
    pub fn configuration(&self, contents: core::result::Result<Vec<u8>, String>) -> (result: Result<
        Configuration,
    >)
        ensures
            match contents {
                Ok(bytes) => match configuration::archived_configuration(bytes@) {
                    Some(wire) => result matches Ok(configuration) && configuration@ == wire,
                    None => result matches Err(error) && error is ConfigurationArchiveDecode,
                },
                Err(reason) => {
                    &&& result matches Err(error)
                    &&& error matches Error::ConfigurationRead { path, detail }
                    &&& path@ == self@
                    &&& detail == reason
                },
            },
    {
        let bytes = match contents {
            Ok(bytes) => bytes,
            Err(detail) => return Err(
                Error::ConfigurationRead { path: self.path.duplicate(), detail },
            ),
        };
        match decode_configuration(bytes.as_slice()) {
            Some(wire) => Ok(Configuration::from_wire(wire)),
            None => Err(Error::ConfigurationArchiveDecode),
        }
    }

    /// The contents to write to the file so that it holds a configuration.
    pub fn configuration_archive(&self, configuration: &DaemonConfiguration) -> (result: Result<
        Vec<u8>,
    >)
        ensures
            match result {
                Ok(bytes) => {
                    &&& configuration::archivable(
                        configuration::configuration_fields(configuration@),
                    )
                    &&& bytes@ == configuration::archived_bytes(
                        configuration::configuration_fields(configuration@),
                    )
                    &&& configuration::within_reach(
                        configuration::configuration_fields(configuration@),
                    ) ==> configuration::archived_configuration(bytes@) == Some(configuration@)
                },
                Err(error) => {
                    &&& !configuration::archivable(
                        configuration::configuration_fields(configuration@),
                    )
                    &&& error is ConfigurationArchiveEncode
                },
            },
    {
        match encode_configuration(configuration) {
            Some(bytes) => Ok(bytes),
            None => Err(Error::ConfigurationArchiveEncode),
        }
    }

    /// What came of writing the file, with the path where it failed.
    pub fn write_outcome(&self, outcome: core::result::Result<(), String>) -> (result: Result<()>)
        ensures
            match outcome {
                Ok(()) => result is Ok,
                Err(reason) => {
                    &&& result matches Err(error)
                    &&& error matches Error::ConfigurationWrite { path, detail }
                    &&& path@ == self@
                    &&& detail == reason
                },
            },
    {
        match outcome {
            Ok(()) => Ok(()),
            Err(detail) => Err(Error::ConfigurationWrite { path: self.path.duplicate(), detail }),
        }
    }
}

/// Asks for the archive of a configuration to be written to a file.
#[derive(Debug, PartialEq, Eq)]
pub struct ConfigurationWriteRequest {
    pub ordinary_socket_path: FilesystemPath,
    pub ordinary_socket_mode: SocketMode,
    pub meta_socket_path: FilesystemPath,
    pub meta_socket_mode: SocketMode,
    pub store_path: FilesystemPath,
    pub spool_directory: FilesystemPath,
    pub output_path: FilesystemPath,
}

impl ConfigurationWriteRequest {
    /// The file to write.
    pub fn output_file(&self) -> (file: RepositoryLedgerDaemonConfigurationFile)
        ensures
            file@ == vstd::utf8::encode_utf8(self.output_path@),
    {
        RepositoryLedgerDaemonConfigurationFile::new(
            UnixPath::from_text(self.output_path.as_str()),
        )
    }

    /// The configuration to write.
    pub fn wire_configuration(&self) -> (wire: DaemonConfiguration)
        ensures
            wire@ == (DaemonConfigurationModel {
                ordinary_socket_path: self.ordinary_socket_path@,
                ordinary_socket_mode: self.ordinary_socket_mode@,
                meta_socket_path: self.meta_socket_path@,
                meta_socket_mode: self.meta_socket_mode@,
                store_path: self.store_path@,
                spool_directory: self.spool_directory@,
            }),
    {
        DaemonConfiguration {
            ordinary_socket_path: self.ordinary_socket_path.duplicate(),
            ordinary_socket_mode: self.ordinary_socket_mode,
            meta_socket_path: self.meta_socket_path.duplicate(),
            meta_socket_mode: self.meta_socket_mode,
            store_path: self.store_path.duplicate(),
            spool_directory: self.spool_directory.duplicate(),
        }
    }
}

/// The daemon takes a signal-encoded file and nothing else, reads from its contents the
/// configuration that is archived there, and says which file could not be read.
pub proof fn lemma_configuration_loaded(
    command: RepositoryLedgerDaemonCommand,
    chosen: Result<RepositoryLedgerDaemonConfigurationFile>,
    file: &RepositoryLedgerDaemonConfigurationFile,
    contents: core::result::Result<Vec<u8>, String>,
    loaded: Result<Configuration>,
)
    requires
        call_ensures(RepositoryLedgerDaemonCommand::configuration_file, (command,), chosen),
        call_ensures(
            RepositoryLedgerDaemonConfigurationFile::configuration,
            (file, contents),
            loaded,
        ),
    ensures
        chosen is Ok <==> (command.argument() matches Ok(ComponentArgument::SignalFile(_))),
        command.argument() matches Ok(ComponentArgument::SignalFile(path)) ==> (
        chosen matches Ok(named) && named@ == path@),
        contents matches Err(reason) ==> (loaded matches Err(
            Error::ConfigurationRead { path, detail },
        ) && path@ == file@ && detail == reason),
        contents matches Ok(bytes) ==> {
            &&& loaded matches Ok(configuration) ==> configuration::archived_fields(bytes@)
                == Some(configuration::configuration_fields(configuration@))
            &&& loaded is Ok <==> configuration::archived_configuration(bytes@) is Some
            &&& loaded matches Err(error) ==> error is ConfigurationArchiveDecode
        },
{
}

/// A configuration that is written to a file and read back is the same.
pub proof fn lemma_configuration_read_back(
    file: &RepositoryLedgerDaemonConfigurationFile,
    written: &DaemonConfiguration,
    archive: Result<Vec<u8>>,
    loaded: Result<Configuration>,
)
    requires
        archive is Ok,
        configuration::within_reach(configuration::configuration_fields(written@)),
        call_ensures(
            RepositoryLedgerDaemonConfigurationFile::configuration_archive,
            (file, written),
            archive,
        ),
        call_ensures(
            RepositoryLedgerDaemonConfigurationFile::configuration,
            (file, Ok::<Vec<u8>, String>(archive->Ok_0)),
            loaded,
        ),
    ensures
        loaded matches Ok(configuration) && configuration@ == written@,
{
}

} // verus!
