//! The daemon: what it opens at startup, and how it answers the frames of a
//! connection.
use vstd::prelude::*;

use crate::configuration::Configuration;
use crate::error::{Error, Result};

verus! {

/// The largest request frame that the daemon reads.
pub const MAXIMUM_REQUEST_FRAME_BYTES: usize = 8_388_608;

/// How many seconds lie between two runs over the spool.
pub const SPOOL_INGEST_INTERVAL_SECONDS: u64 = 2;

/// Names the daemon among those that share one process skeleton.
#[derive(Debug, Clone, Copy, PartialEq, Eq)]
pub struct RepositoryLedgerProcessDaemon;

/// Why the daemon ended a connection or did not start.
#[derive(Debug, PartialEq, Eq)]
pub enum RepositoryLedgerDaemonError {
    Io { detail: String },
    Frame { detail: String },
    SignalFrame { detail: String },
    Engine(Error),
}

/// What the daemon opens on its first request: the store and the spool.
#[derive(Debug, PartialEq, Eq)]
pub struct RepositoryLedgerEngine {
    store_path: String,
    spool_directory: String,
}

impl RepositoryLedgerEngine {
    /// Where the store is.
    pub closed spec fn store_location(&self) -> Seq<char> {
        self.store_path@
    }

    /// Where the spool is.
    pub closed spec fn spool_location(&self) -> Seq<char> {
        self.spool_directory@
    }

    pub fn from_configuration(configuration: &Configuration) -> (result: Result<Self>)
        ensures
            result matches Ok(engine) && engine.store_location() == configuration@.store_path
                && engine.spool_location() == configuration@.spool_directory,
    {
        Ok(
            RepositoryLedgerEngine {
                store_path: configuration.store_path().to_owned(),
                spool_directory: configuration.spool_directory().to_owned(),
            },
        )
    }

    pub fn store_path(&self) -> (path: &str)
        ensures
            path@ == self.store_location(),
    {
        self.store_path.as_str()
    }

    pub fn spool_directory(&self) -> (path: &str)
        ensures
            path@ == self.spool_location(),
    {
        self.spool_directory.as_str()
    }
}

/// The daemon's answer to a handshake.
#[derive(Debug, PartialEq, Eq)]
pub enum HandshakeReply<Version> {
    /// The peer may go on; the daemon speaks this version.
    Accepted(Version),
    /// The peer speaks a version that the daemon's does not take.
    Rejected { local: Version, peer: Version },
}

/// Answers a handshake: accepts where the local version takes the peer's, and
/// otherwise says which two versions do not fit.
pub fn handshake_reply_for<Version>(local: Version, peer: Version, compatible: bool) -> (reply:
    HandshakeReply<Version>)
    ensures
        reply == if compatible {
            HandshakeReply::Accepted(local)
        } else {
            HandshakeReply::Rejected { local, peer }
        },
{
    if compatible {
        HandshakeReply::Accepted(local)
    } else {
        HandshakeReply::Rejected { local, peer }
    }
}

/// A frame as the daemon takes it from a connection.
#[derive(Debug, PartialEq, Eq)]
pub enum ClientFrame<Version, Exchange, Batch> {
    HandshakeRequest(Version),
    Request { exchange: Exchange, request: Batch },
    Other,
}

/// What the daemon does about a frame.
#[derive(Debug, PartialEq, Eq)]
pub enum ConnectionStep<Version, Exchange, Batch> {
    /// Answer the handshake, and read the next frame.
    AnswerHandshake(Version),
    /// Serve the request, reply in its exchange, and close the connection.
    Serve { exchange: Exchange, request: Batch },
}

/// Decides what to do about a frame. A connection carries any number of
/// handshakes and one request; every other frame ends it.
pub fn connection_step<Version, Exchange, Batch>(frame: ClientFrame<Version, Exchange, Batch>) -> (
result: Result<ConnectionStep<Version, Exchange, Batch>>)
    ensures
        match frame {
            ClientFrame::HandshakeRequest(version) => {
                &&& result matches Ok(step)
                &&& step == ConnectionStep::<Version, Exchange, Batch>::AnswerHandshake(version)
            },
            ClientFrame::Request { exchange, request } => {
                &&& result matches Ok(step)
                &&& step == (ConnectionStep::<Version, Exchange, Batch>::Serve {
                    exchange,
                    request,
                })
            },
            ClientFrame::Other => result matches Err(error) && error is UnexpectedFrame,
        },
{
    match frame {
        ClientFrame::HandshakeRequest(version) => Ok(ConnectionStep::AnswerHandshake(version)),
        ClientFrame::Request { exchange, request } => Ok(
            ConnectionStep::Serve { exchange, request },
        ),
        ClientFrame::Other => Err(Error::UnexpectedFrame),
    }
}

/// A peer is let in exactly where its version fits, and learns the version that the
/// daemon speaks; one that is not let in learns both versions. A frame is answered as
/// the handshake or the request that it is, with what it carries, and every other
/// frame ends the connection.
pub proof fn lemma_frames_answered<Version, Exchange, Batch>(
    local: Version,
    peer: Version,
    compatible: bool,
    reply: HandshakeReply<Version>,
    frame: ClientFrame<Version, Exchange, Batch>,
    step: Result<ConnectionStep<Version, Exchange, Batch>>,
)
    requires
        call_ensures(handshake_reply_for::<Version>, (local, peer, compatible), reply),
        call_ensures(connection_step::<Version, Exchange, Batch>, (frame,), step),
    ensures
        compatible ==> reply == HandshakeReply::Accepted(local),
        !compatible ==> reply == (HandshakeReply::Rejected { local, peer }),
        step is Err <==> frame is Other,
        step matches Err(error) ==> error is UnexpectedFrame,
        step matches Ok(ConnectionStep::AnswerHandshake(version)) ==> frame
            == ClientFrame::<Version, Exchange, Batch>::HandshakeRequest(version),
        step matches Ok(ConnectionStep::Serve { exchange, request }) ==> frame == (ClientFrame::<
            Version,
            Exchange,
            Batch,
        >::Request { exchange, request }),
{
}

/// The daemon opens the store and the spool that its configuration names.
pub proof fn lemma_engine_opened(
    configuration: &Configuration,
    result: Result<RepositoryLedgerEngine>,
)
    requires
        call_ensures(RepositoryLedgerEngine::from_configuration, (configuration,), result),
    ensures
        result matches Ok(engine) && engine.store_location() == configuration@.store_path
            && engine.spool_location() == configuration@.spool_directory,
{
}

} // verus!
