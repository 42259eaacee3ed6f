//! The client: where it connects, what its command line asks for, and what it
//! makes of the frames that the daemon sends.
use vstd::prelude::*;

use crate::error::{Error, Result};
use crate::frame::{FrameReply, SubReply};
use crate::path::UnixPath;
use crate::service;
use crate::text::chars_of;

verus! {

/// Where the ordinary socket is unless the environment says otherwise.
pub open spec fn default_ordinary_socket() -> Seq<char> {
    "/run/repository-ledger/repository-ledger.sock"@
}

/// Where the meta socket is unless the environment says otherwise.
pub open spec fn default_meta_socket() -> Seq<char> {
    "/run/repository-ledger/repository-ledger-meta.sock"@
}

/// A client of the daemon, which knows its two sockets.
#[derive(Debug, PartialEq, Eq)]
pub struct Client {
    ordinary_socket_path: UnixPath,
    meta_socket_path: UnixPath,
}

/// The model of a [`Client`].
#[verifier::ext_equal]
pub struct ClientModel {
    pub ordinary_socket_path: Seq<u8>,
    pub meta_socket_path: Seq<u8>,
}

impl View for Client {
    type V = ClientModel;

    closed spec fn view(&self) -> ClientModel {
        ClientModel {
            ordinary_socket_path: self.ordinary_socket_path@,
            meta_socket_path: self.meta_socket_path@,
        }
    }
}

impl Client {
    /// A client with the default meta socket.
    pub fn new(ordinary_socket_path: UnixPath) -> (client: Self)
        ensures
            client@ == (ClientModel {
                ordinary_socket_path: ordinary_socket_path@,
                meta_socket_path: vstd::utf8::encode_utf8(default_meta_socket()),
            }),
    {
        Self::with_sockets(
            ordinary_socket_path,
            UnixPath::from_text("/run/repository-ledger/repository-ledger-meta.sock"),
        )
    }

    pub fn with_sockets(ordinary_socket_path: UnixPath, meta_socket_path: UnixPath) -> (client: Self)
        ensures
            client@ == (ClientModel {
                ordinary_socket_path: ordinary_socket_path@,
                meta_socket_path: meta_socket_path@,
            }),
    {
        Client { ordinary_socket_path, meta_socket_path }
    }

    /// A client with the sockets that the environment names, and the default
    /// socket for each that it does not name.
    pub fn from_settings(
        ordinary_socket_path: Option<UnixPath>,
        meta_socket_path: Option<UnixPath>,
    ) -> (client: Self)
        ensures
            client@ == (ClientModel {
                ordinary_socket_path: match ordinary_socket_path {
                    Some(path) => path@,
                    None => vstd::utf8::encode_utf8(default_ordinary_socket()),
                },
                meta_socket_path: match meta_socket_path {
                    Some(path) => path@,
                    None => vstd::utf8::encode_utf8(default_meta_socket()),
                },
            }),
    {
        let ordinary_socket_path = match ordinary_socket_path {
            Some(path) => path,
            None => UnixPath::from_text("/run/repository-ledger/repository-ledger.sock"),
        };
        let meta_socket_path = match meta_socket_path {
            Some(path) => path,
            None => UnixPath::from_text("/run/repository-ledger/repository-ledger-meta.sock"),
        };
        Self::with_sockets(ordinary_socket_path, meta_socket_path)
    }

    pub fn ordinary_socket_path(&self) -> (path: &UnixPath)
        ensures
            path@ == self@.ordinary_socket_path,
    {
        &self.ordinary_socket_path
    }

    pub fn meta_socket_path(&self) -> (path: &UnixPath)
        ensures
            path@ == self@.meta_socket_path,
    {
        &self.meta_socket_path
    }

    /// The answer in a reply to a batch of one operation.
    pub fn unwrap_single_reply<Payload>(reply: FrameReply<Payload>) -> (result: Result<Payload>)
        ensures
            match result {
                Ok(payload) => single_answer(reply) == Some(payload),
                Err(error) => {
                    &&& single_answer(reply) is None
                    &&& reply is Accepted ==> error is SignalRequestFailed
                    &&& reply is Rejected ==> error is SignalRequestRejected
                },
            },
            result matches Ok(payload) ==> (reply matches FrameReply::Accepted {
                per_operation,
                ..
            } && per_operation@ == seq![SubReply::Completed(payload)]),
            result is Err && reply is Accepted ==> !(reply->per_operation@.len() == 1
                && reply->per_operation@[0] is Completed),
    {
        proof {
            if single_answer(reply) is Some {
                lemma_single_answer(reply, single_answer(reply)->0);
            }
        }
        match reply {
            FrameReply::Accepted { per_operation, .. } => {
                proof {
                    per_operation.lemma_not_empty();
                }
                let ghost all = per_operation@;
                let (head, tail) = per_operation.into_head_and_tail();
                assert(all[0] == head && all.len() == 1 + tail@.len()) by {
                    assert(all == seq![head] + tail@);
                }
                match head {
                    SubReply::Completed(payload) => if tail.len() == 0 {
                        Ok(payload)
                    } else {
                        Err(Error::SignalRequestFailed)
                    },
                    SubReply::Invalidated | SubReply::Failed => Err(Error::SignalRequestFailed),
                }
            },
            FrameReply::Rejected => Err(Error::SignalRequestRejected),
        }
    }

    /// Whether the daemon's answer to the handshake lets the client go on.
    pub fn handshake_outcome<Payload>(frame: ServerFrame<Payload>) -> (result: Result<()>)
        ensures
            match result {
                Ok(()) => frame is HandshakeAccepted,
                Err(error) => {
                    &&& !(frame is HandshakeAccepted)
                    &&& frame is HandshakeRejected ==> error is HandshakeRejected
                    &&& !(frame is HandshakeRejected) ==> error is UnexpectedFrame
                },
            },
    {
        match frame {
            ServerFrame::HandshakeAccepted => Ok(()),
            ServerFrame::HandshakeRejected => Err(Error::HandshakeRejected),
            ServerFrame::Reply { .. } | ServerFrame::Other => Err(Error::UnexpectedFrame),
        }
    }

    /// The answer in the frame that follows a request. It has to be the reply of
    /// the exchange that the request opened.
    pub fn request_outcome<Payload>(frame: ServerFrame<Payload>) -> (result: Result<Payload>)
        ensures
            match frame {
                ServerFrame::Reply { same_exchange: true, reply } => match result {
                    Ok(payload) => single_answer(reply) == Some(payload),
                    Err(error) => {
                        &&& single_answer(reply) is None
                        &&& reply is Accepted ==> error is SignalRequestFailed
                        &&& reply is Rejected ==> error is SignalRequestRejected
                    },
                },
                _ => result matches Err(error) && error is UnexpectedFrame,
            },
    {
        match frame {
            ServerFrame::Reply { same_exchange, reply } => if same_exchange {
                Self::unwrap_single_reply(reply)
            } else {
                Err(Error::UnexpectedFrame)
            },
            ServerFrame::HandshakeAccepted
            | ServerFrame::HandshakeRejected
            | ServerFrame::Other => Err(Error::UnexpectedFrame),
        }
    }
}

/// A frame as a client takes it.
#[derive(Debug, PartialEq, Eq)]
pub enum ServerFrame<Payload> {
    HandshakeAccepted,
    HandshakeRejected,
    /// A reply, and whether it belongs to the exchange that the client opened.
    Reply { same_exchange: bool, reply: FrameReply<Payload> },
    Other,
}

/// The answer in a reply to a batch of one operation: there is one where the
/// reply speaks of exactly one operation and that was carried out.
pub open spec fn single_answer<Payload>(reply: FrameReply<Payload>) -> Option<Payload> {
    match reply {
        FrameReply::Accepted { per_operation, .. } => if per_operation@.len() == 1 {
            match per_operation@[0] {
                SubReply::Completed(payload) => Some(payload),
                _ => None,
            }
        } else {
            None
        },
        FrameReply::Rejected => None,
    }
}

/// A reply holds an answer exactly where it is the reply of an accepted batch to one
/// operation, and that was carried out.
pub proof fn lemma_single_answer<Payload>(reply: FrameReply<Payload>, payload: Payload)
    ensures
        single_answer(reply) == Some(payload) <==> (reply matches FrameReply::Accepted {
            per_operation,
            ..
        } && per_operation@ == seq![SubReply::Completed(payload)]),
{
    if reply is Accepted {
        let per_operation = reply->per_operation;
        if single_answer(reply) == Some(payload) {
            assert(per_operation@ =~= seq![SubReply::Completed(payload)]);
        }
        if per_operation@ == seq![SubReply::Completed(payload)] {
            assert(per_operation@[0] == SubReply::Completed(payload));
        }
    }
}

/// Where the sockets are unless the environment says otherwise.
pub proof fn lemma_default_sockets()
    ensures
        default_ordinary_socket() == "/run/repository-ledger/repository-ledger.sock"@,
        default_meta_socket() == "/run/repository-ledger/repository-ledger-meta.sock"@,
{
}

/// A client gets the answer of a request that was carried out, and none of one
/// that was aborted.
pub proof fn lemma_answer_arrives<Payload: View>(
    reply: FrameReply<Payload>,
    answer: Payload::V,
    error: Error,
    count: nat,
)
    ensures
        service::is_committed(reply, answer) ==> (single_answer(reply) matches Some(payload)
            && payload@ == answer),
        service::is_aborted(reply, error, count) ==> reply is Accepted && single_answer(reply) is None,
        service::is_refused(reply) ==> reply is Accepted && single_answer(reply) is None,
{
    if service::is_aborted(reply, error, count) && count == 1 {
        assert(service::invalidated::<Payload>(count)[0] is Invalidated);
    }
    if service::is_refused(reply) {
        assert(service::invalidated::<Payload>(1)[0] is Invalidated);
    }
}

/// A client goes on after a handshake only where the daemon accepted it, and takes an
/// answer only from a reply in its own exchange, and only the one that this holds.
pub proof fn lemma_frames_taken<Payload>(
    frame: ServerFrame<Payload>,
    handshake: Result<()>,
    request: Result<Payload>,
)
    requires
        call_ensures(Client::handshake_outcome::<Payload>, (frame,), handshake),
        call_ensures(Client::request_outcome::<Payload>, (frame,), request),
    ensures
        handshake is Ok <==> frame is HandshakeAccepted,
        handshake matches Err(error) ==> (error is HandshakeRejected
            <==> frame is HandshakeRejected),
        request matches Ok(payload) ==> {
            &&& frame matches ServerFrame::Reply { same_exchange: true, reply }
            &&& reply matches FrameReply::Accepted { per_operation, .. }
            &&& per_operation@ == seq![SubReply::Completed(payload)]
        },
        request matches Err(error) ==> (error is UnexpectedFrame
            <==> !(frame matches ServerFrame::Reply { same_exchange: true, .. })),
        frame matches ServerFrame::Reply { same_exchange: true, reply } ==> (
        reply matches FrameReply::Accepted { per_operation, .. } && per_operation@.len() == 1
            && per_operation@[0] is Completed ==> request is Ok),
{
    if request is Ok && frame is Reply {
        lemma_single_answer(frame->reply, request->Ok_0);
    }
}

/// The request that a command line writes down, as NOTA.
#[derive(Debug, PartialEq, Eq)]
pub struct CommandLineInput {
    text: String,
}

impl View for CommandLineInput {
    type V = Seq<char>;

    closed spec fn view(&self) -> Seq<char> {
        self.text@
    }
}

/// Where the request of a command line stands.
#[derive(Debug, PartialEq, Eq)]
pub enum CommandLineSource {
    /// In the argument itself.
    Inline(CommandLineInput),
    /// In the file that the argument names.
    File(String),
}

/// Whether an argument is written as a flag.
pub open spec fn is_flag(argument: Seq<char>) -> bool {
    argument.len() >= 2 && argument[0] == '-' && argument[1] == '-'
}

/// Whether an argument is NOTA rather than the name of a file.
pub open spec fn is_inline_nota(argument: Seq<char>) -> bool {
    argument.len() >= 1 && (argument[0] == '(' || argument[0] == '[')
}

impl CommandLineInput {
    /// The request that a text writes down.
    pub fn from_nota(text: &str) -> (input: Self)
        ensures
            input@ == text@,
    {
        CommandLineInput { text: text.to_owned() }
    }

    pub fn as_str(&self) -> (text: &str)
        ensures
            text@ == self@,
    {
        self.text.as_str()
    }

    /// Finds the request of a command line, which has one argument. An argument
    /// that is not text is given as `None`.
    pub fn from_arguments(arguments: Vec<Option<String>>) -> (result: Result<CommandLineSource>)
        ensures
            match result {
                Ok(source) => {
                    &&& arguments@.len() == 1
                    &&& arguments@[0] matches Some(argument)
                    &&& !is_flag(argument@)
                    &&& match source {
                        CommandLineSource::Inline(input) => is_inline_nota(argument@) && input@
                            == argument@,
                        CommandLineSource::File(name) => !is_inline_nota(argument@) && name@
                            == argument@,
                    }
                },
                Err(error) => if arguments@.len() == 1 && arguments@[0] is Some {
                    &&& is_flag(arguments@[0]->0@)
                    &&& error matches Error::FlagArgument(flag)
                    &&& flag@ == arguments@[0]->0@
                } else {
                    error is ExpectedSingleArgument
                },
            },
            arguments@.len() != 1 || arguments@[0] is None ==> result
                == Err::<CommandLineSource, Error>(Error::ExpectedSingleArgument),
            arguments@.len() == 1 && arguments@[0] is Some ==> ({
                let argument = arguments@[0]->0@;
                if argument.len() >= 2 && argument[0] == '-' && argument[1] == '-' {
                    &&& result matches Err(Error::FlagArgument(flag))
                    &&& flag@ == argument
                } else if argument.len() >= 1 && (argument[0] == '(' || argument[0] == '[') {
                    &&& result matches Ok(CommandLineSource::Inline(input))
                    &&& input@ == argument
                } else {
                    &&& result matches Ok(CommandLineSource::File(name))
                    &&& name@ == argument
                }
            }),
    {
        if arguments.len() != 1 {
            return Err(Error::ExpectedSingleArgument);
        }
        let argument = match &arguments[0] {
            Some(argument) => argument.clone(),
            None => return Err(Error::ExpectedSingleArgument),
        };
        let chars = chars_of(argument.as_str());
        if chars.len() >= 2 && chars[0] == '-' && chars[1] == '-' {
            return Err(Error::FlagArgument(argument));
        }
        if chars.len() >= 1 && (chars[0] == '(' || chars[0] == '[') {
            Ok(CommandLineSource::Inline(CommandLineInput { text: argument }))
        } else {
            Ok(CommandLineSource::File(argument))
        }
    }
}

/// A client connects to the sockets that it was given, each to its own purpose, and
/// to the default one for each that it was not given.
pub proof fn lemma_client_sockets(
    ordinary: UnixPath,
    meta: UnixPath,
    named_ordinary: Option<UnixPath>,
    named_meta: Option<UnixPath>,
    alone: Client,
    both: Client,
    settled: Client,
)
    requires
        call_ensures(Client::new, (ordinary,), alone),
        call_ensures(Client::with_sockets, (ordinary, meta), both),
        call_ensures(Client::from_settings, (named_ordinary, named_meta), settled),
    ensures
        alone@.ordinary_socket_path == ordinary@,
        alone@.meta_socket_path == vstd::utf8::encode_utf8(
            "/run/repository-ledger/repository-ledger-meta.sock"@,
        ),
        both@.ordinary_socket_path == ordinary@,
        both@.meta_socket_path == meta@,
        named_ordinary matches Some(path) ==> settled@.ordinary_socket_path == path@,
        named_ordinary is None ==> settled@.ordinary_socket_path == vstd::utf8::encode_utf8(
            "/run/repository-ledger/repository-ledger.sock"@,
        ),
        named_meta matches Some(path) ==> settled@.meta_socket_path == path@,
        named_meta is None ==> settled@.meta_socket_path == vstd::utf8::encode_utf8(
            "/run/repository-ledger/repository-ledger-meta.sock"@,
        ),
{
}

/// A command line asks for one thing: a single argument that is no flag, which is the
/// request itself where it opens a parenthesis or a bracket, and names a file
/// otherwise.
pub proof fn lemma_command_line_read(
    arguments: Vec<Option<String>>,
    result: Result<CommandLineSource>,
)
    requires
        call_ensures(CommandLineInput::from_arguments, (arguments,), result),
    ensures
        result is Ok <==> {
            &&& arguments@.len() == 1
            &&& arguments@[0] matches Some(argument)
            &&& !(argument@.len() >= 2 && argument@[0] == '-' && argument@[1] == '-')
        },
        result matches Ok(CommandLineSource::Inline(input)) ==> input@ == arguments@[0]->0@ && (
        input@[0] == '(' || input@[0] == '['),
        result matches Ok(CommandLineSource::File(name)) ==> name@ == arguments@[0]->0@ && (
        name@.len() == 0 || (name@[0] != '(' && name@[0] != '[')),
        result matches Err(error) ==> (error is FlagArgument <==> arguments@.len() == 1
            && arguments@[0] is Some),
        result matches Err(Error::FlagArgument(flag)) ==> flag@ == arguments@[0]->0@,
        result matches Err(error) ==> error is FlagArgument || error is ExpectedSingleArgument,
{
}

} // verus!
