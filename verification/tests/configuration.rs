use repository_ledger::configuration::decode_configuration;
use repository_ledger::contract::{DaemonConfiguration, FilesystemPath, SocketMode};
use repository_ledger::daemon_command::ComponentArgument;
use repository_ledger::error::ArgumentError;
use repository_ledger::model::Duplicate;
use repository_ledger::path::UnixPath;
use repository_ledger::{
    Configuration, ConfigurationError, ConfigurationWriteRequest, Error,
    RepositoryLedgerDaemonCommand, RepositoryLedgerDaemonConfigurationFile, RepositoryLedgerEngine,
};

fn daemon_configuration() -> DaemonConfiguration {
    DaemonConfiguration {
        ordinary_socket_path: FilesystemPath::new("/tmp/ledger/repository-ledger.sock"),
        ordinary_socket_mode: SocketMode::new(0o600),
        meta_socket_path: FilesystemPath::new("/tmp/ledger/meta-repository-ledger.sock"),
        meta_socket_mode: SocketMode::new(0o600),
        store_path: FilesystemPath::new("/tmp/ledger/repository-ledger.sema"),
        spool_directory: FilesystemPath::new("/tmp/ledger/spool"),
    }
}

fn distinct_configuration() -> DaemonConfiguration {
    DaemonConfiguration {
        meta_socket_mode: SocketMode::new(0o640),
        spool_directory: FilesystemPath::new("spool"),
        ..daemon_configuration()
    }
}

fn path(text: &str) -> UnixPath {
    UnixPath::from_text(text)
}

#[test]
fn daemon_configuration_accepts_binary_file_argument() {
    let configuration = daemon_configuration();
    let configuration_path = "/tmp/ledger/repository-ledger-daemon.rkyv";

    let bytes = RepositoryLedgerDaemonConfigurationFile::new(path(configuration_path))
        .configuration_archive(&configuration)
        .expect("write daemon configuration");

    let file = RepositoryLedgerDaemonCommand::from_argument(Ok(ComponentArgument::SignalFile(
        path(configuration_path),
    )))
    .configuration_file()
    .expect("signal file is accepted");
    assert_eq!(file.as_path(), &path(configuration_path));
    let decoded = file
        .configuration(Ok(bytes))
        .expect("read daemon configuration");

    assert_eq!(decoded.wire(), &configuration);
}

#[test]
fn daemon_configuration_rejects_nota_arguments() {
    let inline = RepositoryLedgerDaemonCommand::from_argument(Ok(ComponentArgument::InlineNota(
        "(DaemonConfiguration)".to_owned(),
    )))
    .configuration_file()
    .expect_err("inline NOTA is rejected");
    let file = RepositoryLedgerDaemonCommand::from_argument(Ok(ComponentArgument::NotaFile(
        path("/tmp/ledger/repository-ledger-daemon.nota"),
    )))
    .configuration_file()
    .expect_err(".nota file is rejected");

    assert!(matches!(inline, repository_ledger::Error::Argument(_)));
    assert!(matches!(file, repository_ledger::Error::Argument(_)));
    assert_eq!(inline, Error::Argument(ArgumentError::ExpectedSignalFile));
}

#[test]
fn a_refused_argument_is_passed_on() {
    let refused = RepositoryLedgerDaemonCommand::from_argument(Err(ArgumentError::Refused {
        detail: "two arguments".to_owned(),
    }));
    assert_eq!(
        refused.configuration_file(),
        Err(Error::Argument(ArgumentError::Refused {
            detail: "two arguments".to_owned(),
        }))
    );
}

#[test]
fn a_configuration_survives_its_archive() {
    let configuration = Configuration::from_wire(distinct_configuration());
    let bytes = configuration.to_binary_bytes().expect("encodes");
    assert_eq!(
        Configuration::from_binary_file(&path("/c.rkyv"), Ok(bytes)),
        Ok(configuration)
    );
}

#[test]
fn an_archive_holds_the_longer_texts_and_then_the_fields() {
    // Texts of 34, 39 and 34 bytes stand before the fields, and one of 5 in them.
    let bytes = Configuration::from_wire(distinct_configuration())
        .to_binary_bytes()
        .expect("encodes");
    assert_eq!(bytes.len(), 108 + 40);
}

#[test]
fn an_archive_is_read_in_place_where_its_fields_lie_aligned() {
    let configuration = Configuration::from_wire(distinct_configuration());
    let bytes = configuration.to_binary_bytes().expect("encodes");
    let mut found = 0;
    for shift in 0..4 {
        let mut buffer = vec![0u8; 256];
        buffer[shift..shift + bytes.len()].copy_from_slice(&bytes);
        match Configuration::from_binary_bytes(&buffer[shift..shift + bytes.len()]) {
            Ok(read) => {
                assert_eq!(read, configuration);
                found += 1;
            }
            Err(error) => assert_eq!(error, ConfigurationError::Decode { path: path("") }),
        }
    }
    assert_eq!(found, 1);
}

#[test]
fn the_contents_of_a_file_are_read_wherever_they_lie() {
    let wire = distinct_configuration();
    let bytes = Configuration::from_wire(wire.duplicate())
        .to_binary_bytes()
        .expect("encodes");
    for shift in 0..4 {
        let mut buffer = vec![0u8; 256];
        buffer[shift..shift + bytes.len()].copy_from_slice(&bytes);
        assert_eq!(
            decode_configuration(&buffer[shift..shift + bytes.len()]),
            Some(wire.duplicate())
        );
    }
}

#[test]
fn the_fields_found_in_an_archive_make_a_configuration() {
    assert_eq!(
        Configuration::from_fields(Some((
            "/tmp/ledger/repository-ledger.sock".to_owned(),
            0o600,
            "/tmp/ledger/meta-repository-ledger.sock".to_owned(),
            0o640,
            "/tmp/ledger/repository-ledger.sema".to_owned(),
            "spool".to_owned(),
        ))),
        Ok(Configuration::from_wire(distinct_configuration()))
    );
    assert_eq!(
        Configuration::from_fields(None),
        Err(ConfigurationError::Decode { path: path("") })
    );
}

#[test]
fn short_and_empty_texts_survive_too() {
    let mut wire = distinct_configuration();
    wire.ordinary_socket_path = FilesystemPath::new("");
    wire.store_path = FilesystemPath::new("12345678");
    wire.spool_directory = FilesystemPath::new("ä€𝄞");
    let bytes = Configuration::from_wire(wire.duplicate())
        .to_binary_bytes()
        .expect("encodes");
    assert_eq!(decode_configuration(&bytes), Some(wire));
}

#[test]
fn different_configurations_have_different_archives() {
    let first = Configuration::from_wire(distinct_configuration());
    let mut wire = distinct_configuration();
    wire.meta_socket_mode = SocketMode::new(0o600);
    let second = Configuration::from_wire(wire);
    assert_ne!(first.to_binary_bytes(), second.to_binary_bytes());
}

#[test]
fn other_bytes_hold_no_configuration() {
    for bytes in [Vec::new(), vec![1u8, 2, 3], vec![0x80u8; 64]] {
        assert_eq!(
            Configuration::from_binary_bytes(&bytes),
            Err(ConfigurationError::Decode {
                path: path(""),
            })
        );
        assert_eq!(
            RepositoryLedgerDaemonConfigurationFile::new(path("/c")).configuration(Ok(bytes)),
            Err(Error::ConfigurationArchiveDecode)
        );
    }
}

#[test]
fn a_configuration_file_names_its_path_in_errors() {
    assert_eq!(
        Configuration::from_binary_file(&path("/c.rkyv"), Ok(vec![0])),
        Err(ConfigurationError::Decode {
            path: path("/c.rkyv"),
        })
    );
    assert_eq!(
        Configuration::from_binary_file(&path("/c.rkyv"), Err("missing".to_owned())),
        Err(ConfigurationError::Read {
            path: path("/c.rkyv"),
            detail: "missing".to_owned(),
        })
    );
    let bytes = Configuration::from_wire(distinct_configuration())
        .to_binary_bytes()
        .expect("encodes");
    assert_eq!(
        Configuration::from_binary_file(&path("/c.rkyv"), Ok(bytes)),
        Ok(Configuration::from_wire(distinct_configuration()))
    );
    let file = RepositoryLedgerDaemonConfigurationFile::new(path("/c.rkyv"));
    assert_eq!(
        file.configuration(Err("missing".to_owned())),
        Err(Error::ConfigurationRead {
            path: path("/c.rkyv"),
            detail: "missing".to_owned(),
        })
    );
    assert_eq!(file.write_outcome(Ok(())), Ok(()));
    assert_eq!(
        file.write_outcome(Err("full".to_owned())),
        Err(Error::ConfigurationWrite {
            path: path("/c.rkyv"),
            detail: "full".to_owned(),
        })
    );
}

#[test]
fn a_configuration_gives_out_its_parts() {
    let configuration = Configuration::from_wire(distinct_configuration());
    assert_eq!(configuration.socket_path(), "/tmp/ledger/repository-ledger.sock");
    assert_eq!(configuration.ordinary_socket_mode().into_u32(), 0o600);
    assert_eq!(
        configuration.meta_socket_path(),
        "/tmp/ledger/meta-repository-ledger.sock"
    );
    assert_eq!(configuration.meta_socket_mode().into_u32(), 0o640);
    assert_eq!(configuration.store_path(), "/tmp/ledger/repository-ledger.sema");
    assert_eq!(configuration.spool_directory(), "spool");

    let engine = RepositoryLedgerEngine::from_configuration(&configuration).expect("engine");
    assert_eq!(engine.store_path(), "/tmp/ledger/repository-ledger.sema");
    assert_eq!(engine.spool_directory(), "spool");
}

#[test]
fn a_write_request_says_what_to_write_and_where() {
    let request = ConfigurationWriteRequest {
        ordinary_socket_path: FilesystemPath::new("/tmp/ledger/repository-ledger.sock"),
        ordinary_socket_mode: SocketMode::new(0o600),
        meta_socket_path: FilesystemPath::new("/tmp/ledger/meta-repository-ledger.sock"),
        meta_socket_mode: SocketMode::new(0o640),
        store_path: FilesystemPath::new("/tmp/ledger/repository-ledger.sema"),
        spool_directory: FilesystemPath::new("spool"),
        output_path: FilesystemPath::new("/etc/ledger.rkyv"),
    };
    assert_eq!(request.wire_configuration(), distinct_configuration());
    assert_eq!(request.output_file().as_path(), &path("/etc/ledger.rkyv"));
}

#[test]
fn a_configuration_file_keeps_any_path() {
    for bytes in [Vec::new(), b"relative/../file".to_vec(), vec![b'/', 0xff, 0xfe]] {
        let file =
            RepositoryLedgerDaemonConfigurationFile::new(UnixPath::from_bytes(bytes.clone()));
        assert_eq!(file.as_path().as_bytes(), bytes.as_slice());
        assert_eq!(
            file.configuration(Err("missing".to_owned())),
            Err(Error::ConfigurationRead {
                path: UnixPath::from_bytes(bytes),
                detail: "missing".to_owned(),
            })
        );
    }
}

#[test]
fn a_text_that_the_archive_cannot_count_is_refused() {
    let mut wire = daemon_configuration();
    wire.ordinary_socket_path = FilesystemPath::from_string("a".repeat(0x4000_0000));
    assert_eq!(
        Configuration::from_wire(wire).to_binary_bytes(),
        Err(ConfigurationError::Encode)
    );
}
