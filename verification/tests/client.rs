use repository_ledger::client::{Client, CommandLineInput, CommandLineSource, ServerFrame};
use repository_ledger::daemon::{
    connection_step, handshake_reply_for, ClientFrame, ConnectionStep, HandshakeReply,
    MAXIMUM_REQUEST_FRAME_BYTES, SPOOL_INGEST_INTERVAL_SECONDS,
};
use repository_ledger::frame::{
    BatchFailureReason, CommitStatus, FrameReply, NonEmpty, RetryClassification, SubReply,
};
use repository_ledger::path::UnixPath;
use repository_ledger::Error;

fn arguments(values: &[&str]) -> Vec<Option<String>> {
    values.iter().map(|value| Some((*value).to_owned())).collect()
}

#[test]
fn a_client_has_default_sockets() {
    let client = Client::new(UnixPath::from_text("/tmp/ordinary.sock"));
    assert_eq!(client.ordinary_socket_path().as_bytes(), b"/tmp/ordinary.sock");
    assert_eq!(
        client.meta_socket_path().as_bytes(),
        b"/run/repository-ledger/repository-ledger-meta.sock"
    );
    let client = Client::from_settings(None, Some(UnixPath::from_text("/tmp/meta.sock")));
    assert_eq!(
        client.ordinary_socket_path().as_bytes(),
        b"/run/repository-ledger/repository-ledger.sock"
    );
    assert_eq!(client.meta_socket_path().as_bytes(), b"/tmp/meta.sock");
    let client = Client::with_sockets(
        UnixPath::from_bytes(vec![b'/', 0xff]),
        UnixPath::from_text("/m"),
    );
    assert_eq!(client.ordinary_socket_path().as_bytes(), &[b'/', 0xff]);
}

#[test]
fn a_command_line_is_one_argument() {
    assert_eq!(
        CommandLineInput::from_arguments(Vec::new()),
        Err(Error::ExpectedSingleArgument)
    );
    assert_eq!(
        CommandLineInput::from_arguments(arguments(&["(a)", "(b)"])),
        Err(Error::ExpectedSingleArgument)
    );
    assert_eq!(
        CommandLineInput::from_arguments(vec![None]),
        Err(Error::ExpectedSingleArgument)
    );
}

#[test]
fn flags_are_refused() {
    assert_eq!(
        CommandLineInput::from_arguments(arguments(&["--help"])),
        Err(Error::FlagArgument("--help".to_owned()))
    );
    assert_eq!(
        CommandLineInput::from_arguments(arguments(&["-h"])),
        Ok(CommandLineSource::File("-h".to_owned()))
    );
}

#[test]
fn an_argument_is_nota_or_the_name_of_a_file() {
    assert_eq!(
        CommandLineInput::from_arguments(arguments(&["(Query Catalog)"])),
        Ok(CommandLineSource::Inline(CommandLineInput::from_nota("(Query Catalog)")))
    );
    assert_eq!(
        CommandLineInput::from_arguments(arguments(&["[Query]"])),
        Ok(CommandLineSource::Inline(CommandLineInput::from_nota("[Query]")))
    );
    assert_eq!(
        CommandLineInput::from_arguments(arguments(&["request.nota"])),
        Ok(CommandLineSource::File("request.nota".to_owned()))
    );
    assert_eq!(
        CommandLineInput::from_arguments(arguments(&[""])),
        Ok(CommandLineSource::File(String::new()))
    );
    assert_eq!(CommandLineInput::from_nota("(a)").as_str(), "(a)");
}

#[test]
fn a_single_completed_reply_is_unwrapped() {
    let reply = FrameReply::committed(NonEmpty::single(SubReply::Completed(7u32)));
    assert_eq!(Client::unwrap_single_reply(reply), Ok(7));
}

#[test]
fn other_replies_are_failures() {
    let mut several = NonEmpty::single(SubReply::Completed(7u32));
    several.push(SubReply::Completed(8));
    assert_eq!(
        Client::unwrap_single_reply(FrameReply::committed(several)),
        Err(Error::SignalRequestFailed)
    );
    assert_eq!(
        Client::unwrap_single_reply::<u32>(FrameReply::committed(NonEmpty::single(
            SubReply::Failed
        ))),
        Err(Error::SignalRequestFailed)
    );
    assert_eq!(
        Client::unwrap_single_reply::<u32>(FrameReply::batch_aborted(
            BatchFailureReason::EngineRejected,
            RetryClassification::NotRetryable,
            CommitStatus::NotCommitted,
            NonEmpty::single(SubReply::Invalidated),
        )),
        Err(Error::SignalRequestFailed)
    );
    assert_eq!(
        Client::unwrap_single_reply::<u32>(FrameReply::Rejected),
        Err(Error::SignalRequestRejected)
    );
}

#[test]
fn the_handshake_must_be_accepted() {
    assert_eq!(
        Client::handshake_outcome::<u32>(ServerFrame::HandshakeAccepted),
        Ok(())
    );
    assert_eq!(
        Client::handshake_outcome::<u32>(ServerFrame::HandshakeRejected),
        Err(Error::HandshakeRejected)
    );
    assert_eq!(
        Client::handshake_outcome::<u32>(ServerFrame::Other),
        Err(Error::UnexpectedFrame)
    );
    assert_eq!(
        Client::handshake_outcome(ServerFrame::Reply {
            same_exchange: true,
            reply: FrameReply::<u32>::Rejected,
        }),
        Err(Error::UnexpectedFrame)
    );
}

#[test]
fn a_reply_must_belong_to_the_exchange() {
    let reply = |value: u32| FrameReply::committed(NonEmpty::single(SubReply::Completed(value)));
    assert_eq!(
        Client::request_outcome(ServerFrame::Reply {
            same_exchange: true,
            reply: reply(3),
        }),
        Ok(3)
    );
    assert_eq!(
        Client::request_outcome(ServerFrame::Reply {
            same_exchange: false,
            reply: reply(3),
        }),
        Err(Error::UnexpectedFrame)
    );
    assert_eq!(
        Client::request_outcome::<u32>(ServerFrame::HandshakeAccepted),
        Err(Error::UnexpectedFrame)
    );
}

#[test]
fn a_connection_carries_handshakes_and_a_request() {
    assert_eq!(
        connection_step(ClientFrame::<u8, u16, u32>::HandshakeRequest(1)),
        Ok(ConnectionStep::AnswerHandshake(1))
    );
    assert_eq!(
        connection_step(ClientFrame::<u8, u16, u32>::Request {
            exchange: 2,
            request: 3,
        }),
        Ok(ConnectionStep::Serve {
            exchange: 2,
            request: 3,
        })
    );
    assert_eq!(
        connection_step(ClientFrame::<u8, u16, u32>::Other),
        Err(Error::UnexpectedFrame)
    );
}

#[test]
fn incompatible_versions_are_named() {
    assert_eq!(handshake_reply_for(3u32, 2, true), HandshakeReply::Accepted(3));
    assert_eq!(
        handshake_reply_for(3u32, 4, false),
        HandshakeReply::Rejected { local: 3, peer: 4 }
    );
}

#[test]
fn the_daemon_has_its_limits() {
    assert_eq!(MAXIMUM_REQUEST_FRAME_BYTES, 8 * 1024 * 1024);
    assert_eq!(SPOOL_INGEST_INTERVAL_SECONDS, 2);
}
