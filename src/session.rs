use crate::broadcast::{deliveries, delivery_views, Delivery};
use crate::registry::{
    after_register, after_remove, register_result, registry_wf, ClientView, RegisterError, Registry,
};
use crate::text::{decode_lossy, lossy_text, opt_text};
use vstd::prelude::*;
use vstd::string::*;

verus! {

/// Where a connection stands.
#[derive(Debug, Clone, Copy, PartialEq, Eq, Structural)]
pub enum SessionState {
    /// Prompted, and waiting for an acceptable display name.
    AwaitingName,
    /// Holds a display name; its messages are broadcast.
    Registered,
    /// Finished; the connection is to be closed.
    Closed,
}

/// What reading one line of the name handshake gave.
pub enum LineEvent {
    Line(String),
    EndOfStream,
    ReadError,
}

/// What reading one chunk from a registered connection gave.
pub enum ChunkEvent {
    Data(Vec<u8>),
    EndOfStream,
    ReadError,
}

/// The outcome of one handshake read: the next state, and the text to send
/// back to the connection, if any.
pub struct HandshakeStep {
    pub state: SessionState,
    pub reply: Option<String>,
}

/// The outcome of one read from a registered connection: the next state, and
/// the lines to deliver to other clients.
pub struct ReceiveStep {
    pub state: SessionState,
    pub deliveries: Vec<Delivery>,
}

/// The prompt sent once when a connection is accepted.
pub open spec fn prompt_text() -> Seq<char> {
    "Enter username: "@
}

/// The text sent when a name is accepted.
pub open spec fn welcome_text() -> Seq<char> {
    "Welcome!\n"@
}

/// The text sent when a name is refused and the connection may try again.
pub open spec fn retry_text(e: RegisterError) -> Seq<char> {
    match e {
        RegisterError::EmptyName => "Name cannot be empty\n"@,
        _ => "Name already taken, try another\n"@,
    }
}

/// The state a handshake read leads to, by the registration outcome.
pub open spec fn handshake_state(res: Result<Seq<char>, RegisterError>) -> SessionState {
    match res {
        Ok(_) => SessionState::Registered,
        Err(RegisterError::AlreadyRegistered) => SessionState::Closed,
        Err(_) => SessionState::AwaitingName,
    }
}

/// The reply a handshake read sends, by the registration outcome.
pub open spec fn handshake_reply(res: Result<Seq<char>, RegisterError>) -> Option<Seq<char>> {
    match res {
        Ok(_) => Some(welcome_text()),
        Err(RegisterError::AlreadyRegistered) => None,
        Err(e) => Some(retry_text(e)),
    }
}

/// The registry after one read from registered connection `id`.
pub open spec fn receive_registry(v: Seq<ClientView>, id: Seq<char>, e: ChunkEvent) -> Seq<
    ClientView,
> {
    match e {
        ChunkEvent::Data(_) => v,
        _ => after_remove(v, id),
    }
}

/// The deliveries one read from registered connection `id` produces.
pub open spec fn receive_round(v: Seq<ClientView>, id: Seq<char>, e: ChunkEvent) -> Seq<
    (Seq<char>, Seq<char>),
> {
    match e {
        ChunkEvent::Data(bytes) => deliveries(v, id, lossy_text(bytes@)),
        _ => Seq::empty(),
    }
}

/// The state one read from a registered connection leads to.
pub open spec fn receive_state(e: ChunkEvent) -> SessionState {
    match e {
        ChunkEvent::Data(_) => SessionState::Registered,
        _ => SessionState::Closed,
    }
}

/// Receiving the same message twice gives two full delivery rounds: a round
/// leaves the registry as it was, so the second round addresses the same
/// clients with the same line as the first. Nothing is deduplicated.
pub proof fn lemma_repeated_message_delivered_twice(v: Seq<ClientView>, id: Seq<char>, e: ChunkEvent)
    requires
        e is Data,
    ensures
        receive_registry(v, id, e) == v,
        receive_round(receive_registry(v, id, e), id, e) == receive_round(v, id, e),
{
}

/// The prompt sent once when a connection is accepted.
pub fn prompt() -> (r: &'static str)
    ensures
        r@ == prompt_text(),
{
    "Enter username: "
}

/// Handles one read of the name handshake of connection `connection_id`.
/// A line is trimmed and registered in one step; end of stream or a read
/// error closes the connection without touching the registry.
pub fn handshake_step(registry: &mut Registry, connection_id: &String, event: &LineEvent) -> (r:
    HandshakeStep)
    requires
        registry_wf(old(registry)@),
    ensures
        registry_wf(final(registry)@),
        match event {
            LineEvent::Line(line) => {
                let res = register_result(old(registry)@, connection_id@, line@);
                &&& final(registry)@ == after_register(old(registry)@, connection_id@, line@)
                &&& r.state == handshake_state(res)
                &&& opt_text(r.reply) == handshake_reply(res)
            },
            _ => {
                &&& final(registry)@ == old(registry)@
                &&& r.state == SessionState::Closed
                &&& r.reply is None
            },
        },
{
    match event {
        LineEvent::Line(line) => match registry.register(connection_id, line.as_str()) {
            Ok(_) => HandshakeStep {
                state: SessionState::Registered,
                reply: Some(String::from_str("Welcome!\n")),
            },
            Err(RegisterError::EmptyName) => HandshakeStep {
                state: SessionState::AwaitingName,
                reply: Some(String::from_str("Name cannot be empty\n")),
            },
            Err(RegisterError::NameTaken) => HandshakeStep {
                state: SessionState::AwaitingName,
                reply: Some(String::from_str("Name already taken, try another\n")),
            },
            Err(RegisterError::AlreadyRegistered) => HandshakeStep {
                state: SessionState::Closed,
                reply: None,
            },
        },
        _ => HandshakeStep { state: SessionState::Closed, reply: None },
    }
}

/// Handles one read from registered connection `connection_id`. Data is
/// decoded lossily and broadcast; end of stream or a read error removes the
/// connection from the registry and closes it.
pub fn receive_step(registry: &mut Registry, connection_id: &String, event: &ChunkEvent) -> (r:
    ReceiveStep)
    requires
        registry_wf(old(registry)@),
    ensures
        registry_wf(final(registry)@),
        final(registry)@ == receive_registry(old(registry)@, connection_id@, *event),
        r.state == receive_state(*event),
        delivery_views(r.deliveries@) == receive_round(old(registry)@, connection_id@, *event),
{
    match event {
        ChunkEvent::Data(bytes) => {
            let text = decode_lossy(bytes.as_slice());
            let out = registry.broadcast_message(connection_id, text.as_str());
            ReceiveStep { state: SessionState::Registered, deliveries: out }
        },
        _ => {
            registry.remove(connection_id);
            let none: Vec<Delivery> = Vec::new();
            assert(delivery_views(none@) =~= Seq::empty());
            ReceiveStep { state: SessionState::Closed, deliveries: none }
        },
    }
}

} // verus!
