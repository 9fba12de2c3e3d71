//! A connection of the WebTorrent tracker from the handshakes to its
//! end: which phase follows on which, what is read in which phase, and
//! which messages wait to be written.

use crate::common::ConnectionMeta;
use crate::time::SecondsSinceServerStart;
use crate::time::ValidUntil;
use crate::ws::InMessage;
use crate::ws::OutMessage;
use std::collections::VecDeque;
use std::marker::PhantomData;
use vstd::prelude::*;

verus! {

/// Largest number of messages that may wait to be written.
pub const MAX_PENDING_MESSAGES: usize = 16;

/// Whether a connection is known to the poll of its socket worker.
pub trait RegistryStatus {

}

/// The connection is known to the poll.
pub struct Registered;

impl RegistryStatus for Registered {

}

/// The connection is not known to the poll: it can be read from and
/// be dropped.
pub struct NotRegistered;

impl RegistryStatus for NotRegistered {

}

/// How far a connection has come.
#[derive(Clone, Copy, Debug, PartialEq, Eq, Structural)]
pub enum ConnectionPhase {
    /// The TLS handshake goes on.
    TlsHandshaking,
    /// The TLS handshake is done and the WebSocket handshake goes on.
    WsHandshaking,
    /// Both handshakes are done: messages come and go.
    Active,
    /// The connection is at its end.
    Closing,
}

/// What a connection waits for.
#[derive(Clone, Copy, Debug, PartialEq, Eq, Structural)]
pub enum Interest {
    Readable,
    Writable,
}

/// How a WebSocket handshake stands after a step.
#[derive(Clone, Copy, Debug, PartialEq, Eq, Structural)]
pub enum WsHandshake {
    Done,
    Interrupted,
    Failed,
}

/// What reading from the stream of a connection came to.
pub enum ReadEvent {
    /// The stream has nothing to read now.
    WouldBlock,
    /// The TLS handshake goes on.
    TlsContinues,
    /// The TLS handshake is done, and a first step of the WebSocket
    /// handshake was taken.
    TlsDone(WsHandshake),
    /// A step of the WebSocket handshake was taken.
    WsStep(WsHandshake),
    /// A message of the client was read.
    Message(InMessage),
    /// The stream is closed or broken, or what was read from it is no
    /// message.
    Failed,
}

/// What writing a message to the stream of a connection came to.
#[derive(Clone, Copy, Debug, PartialEq, Eq, Structural)]
pub enum WriteResult {
    Written,
    WouldBlock,
    Failed,
}

/// Why a connection cannot go on.
#[derive(Clone, Copy, Debug, PartialEq, Eq, Structural)]
pub enum ConnectionError {
    /// The WebSocket connection is not established.
    NotConnected,
    /// The stream is closed or broken.
    Io,
}

/// What is to be done after a read.
pub enum ReadOutcome {
    /// The connection has come further and is to be read from again.
    Continue(Connection<NotRegistered>),
    /// Reading stops for now; a message that was read is handed on.
    Stop(Connection<NotRegistered>, Option<InMessage>),
    /// The connection is dropped.
    Dropped,
}

/// A connection of a client.
pub struct Connection<R: RegistryStatus> {
    valid_until: ValidUntil,
    meta: ConnectionMeta,
    phase: ConnectionPhase,
    message_queue: VecDeque<OutMessage>,
    interest: Interest,
    phantom_data: PhantomData<R>,
}

/// The phase that follows on a step of the WebSocket handshake, where
/// the handshake has not failed.
pub open spec fn phase_after_handshake(step: WsHandshake) -> ConnectionPhase {
    match step {
        WsHandshake::Done => ConnectionPhase::Active,
        _ => ConnectionPhase::WsHandshaking,
    }
}

/// Whether a connection in the phase is dropped on the event: on a
/// failure, on a failed handshake, and on an event that does not belong
/// to the phase.
pub open spec fn drops_on(phase: ConnectionPhase, event: ReadEvent) -> bool {
    match (phase, event) {
        (ConnectionPhase::TlsHandshaking, ReadEvent::WouldBlock) => false,
        (ConnectionPhase::TlsHandshaking, ReadEvent::TlsContinues) => false,
        (ConnectionPhase::TlsHandshaking, ReadEvent::TlsDone(step)) => step == WsHandshake::Failed,
        (ConnectionPhase::WsHandshaking, ReadEvent::WouldBlock) => false,
        (ConnectionPhase::WsHandshaking, ReadEvent::WsStep(step)) => step == WsHandshake::Failed,
        (ConnectionPhase::Active, ReadEvent::WouldBlock) => false,
        (ConnectionPhase::Active, ReadEvent::Message(_)) => false,
        _ => true,
    }
}

/// The phase of a connection after an event on which it is not dropped.
pub open spec fn phase_after(phase: ConnectionPhase, event: ReadEvent) -> ConnectionPhase {
    match event {
        ReadEvent::TlsDone(step) => phase_after_handshake(step),
        ReadEvent::WsStep(step) => phase_after_handshake(step),
        _ => phase,
    }
}

/// Whether the connection is to be read from again at once after the
/// event: it is where a handshake was just done, since a message may
/// wait behind it.
pub open spec fn reads_on(event: ReadEvent) -> bool {
    event matches ReadEvent::TlsDone(WsHandshake::Done) || event matches ReadEvent::WsStep(
        WsHandshake::Done,
    )
}

impl<R: RegistryStatus> Connection<R> {
    /// How far the connection has come.
    pub closed spec fn spec_phase(&self) -> ConnectionPhase {
        self.phase
    }

    pub closed spec fn spec_meta(&self) -> ConnectionMeta {
        self.meta
    }

    /// Until when the connection counts as in use.
    pub closed spec fn spec_valid_until(&self) -> ValidUntil {
        self.valid_until
    }

    /// What the connection waits for.
    pub closed spec fn spec_interest(&self) -> Interest {
        self.interest
    }

    /// The messages that wait to be written, the next one first.
    pub closed spec fn spec_queue(&self) -> Seq<OutMessage> {
        self.message_queue@
    }

    /// Whether no more messages wait than may.
    pub open spec fn wf(&self) -> bool {
        self.spec_queue().len() <= MAX_PENDING_MESSAGES
    }

    pub fn interest(&self) -> (interest: Interest)
        ensures
            interest == self.spec_interest(),
    {
        self.interest
    }

    /// Number of messages that wait to be written.
    pub fn num_queued(&self) -> (n: usize)
        ensures
            n == self.spec_queue().len(),
    {
        self.message_queue.len()
    }

    /// Notes that the connection is in use until `valid_until`.
    pub fn set_valid_until(&mut self, valid_until: ValidUntil)
        ensures
            final(self).spec_valid_until() == valid_until,
            final(self).spec_phase() == old(self).spec_phase(),
            final(self).spec_meta() == old(self).spec_meta(),
            final(self).spec_interest() == old(self).spec_interest(),
            final(self).spec_queue() == old(self).spec_queue(),
    {
        self.valid_until = valid_until;
    }

    pub fn get_meta(&self) -> (meta: ConnectionMeta)
        ensures
            meta == self.spec_meta(),
    {
        self.meta
    }

    pub fn phase(&self) -> (phase: ConnectionPhase)
        ensures
            phase == self.spec_phase(),
    {
        self.phase
    }

    /// Whether a message for the client that `meta` tells of is one
    /// for the client of this connection: it is not where the connection
    /// with the number has gone to another client in the meantime.
    pub fn is_for(&self, meta: &ConnectionMeta) -> (r: bool)
        ensures
            r == (meta.peer_addr.port == self.spec_meta().peer_addr.port && meta.peer_addr.ip@
                == self.spec_meta().peer_addr.ip@ && meta.peer_addr.ip.spec_is_ipv4()
                == self.spec_meta().peer_addr.ip.spec_is_ipv4()),
    {
        if meta.peer_addr.port != self.meta.peer_addr.port {
            return false;
        }
        if meta.peer_addr.ip.is_ipv4() != self.meta.peer_addr.ip.is_ipv4() {
            return false;
        }
        let a = meta.peer_addr.ip.octets();
        let b = self.meta.peer_addr.ip.octets();
        if a.len() != b.len() {
            return false;
        }
        let mut i: usize = 0;
        while i < a.len()
            invariant
                i <= a@.len(),
                a@.len() == b@.len(),
                a@ == meta.peer_addr.ip@,
                b@ == self.spec_meta().peer_addr.ip@,
                meta.peer_addr.port == self.spec_meta().peer_addr.port,
                meta.peer_addr.ip.spec_is_ipv4() == self.spec_meta().peer_addr.ip.spec_is_ipv4(),
                forall|j: int| 0 <= j < i ==> a@[j] == b@[j],
            decreases a.len() - i,
        {
            if a[i] != b[i] {
                assert(a@[i as int] != b@[i as int]);
                return false;
            }
            i = i + 1;
        }
        assert(a@ =~= b@);
        true
    }

    /// Whether the connection has been idle for too long at `now`.
    pub fn expired(&self, now: SecondsSinceServerStart) -> (r: bool)
        ensures
            r == !self.spec_valid_until().spec_valid(now),
    {
        !self.valid_until.valid(now)
    }
}

impl Connection<NotRegistered> {
    /// A connection that starts with its TLS handshake, waits to be
    /// read from and has no message to write.
    pub fn new(valid_until: ValidUntil, meta: ConnectionMeta) -> (connection: Self)
        ensures
            connection.spec_phase() == ConnectionPhase::TlsHandshaking,
            connection.spec_meta() == meta,
            connection.spec_valid_until() == valid_until,
            connection.spec_interest() == Interest::Readable,
            connection.spec_queue() == Seq::<OutMessage>::empty(),
            connection.wf(),
    {
        Connection {
            valid_until,
            meta,
            phase: ConnectionPhase::TlsHandshaking,
            message_queue: VecDeque::new(),
            interest: Interest::Readable,
            phantom_data: PhantomData,
        }
    }

    /// Takes in what reading from the stream came to.
    ///
    /// The connection is dropped where [`drops_on`] says so. Else it
    /// goes to the phase that [`phase_after`] gives. It is to be read
    /// from again at once where a handshake was just done. Reading stops
    /// where the stream would block, and after a message, even if more
    /// could be read: otherwise one connection could keep its worker from
    /// all others.
    pub fn read(self, event: ReadEvent) -> (outcome: ReadOutcome)
        ensures
            drops_on(self.spec_phase(), event) ==> outcome is Dropped,
            !drops_on(self.spec_phase(), event) ==> {
                let (connection, message) = match outcome {
                    ReadOutcome::Continue(connection) => (connection, None),
                    ReadOutcome::Stop(connection, message) => (connection, message),
                    ReadOutcome::Dropped => (self, None),
                };
                &&& !(outcome is Dropped)
                &&& (outcome is Continue) == reads_on(event)
                &&& connection.spec_phase() == phase_after(self.spec_phase(), event)
                &&& connection.spec_meta() == self.spec_meta()
                &&& connection.spec_valid_until() == self.spec_valid_until()
                &&& connection.spec_interest() == self.spec_interest()
                &&& connection.spec_queue() == self.spec_queue()
                &&& message == (match event {
                    ReadEvent::Message(m) => Some(m),
                    _ => None,
                })
            },
    {
        let mut connection = self;
        match (connection.phase, event) {
            (ConnectionPhase::TlsHandshaking, ReadEvent::WouldBlock) => ReadOutcome::Stop(
                connection,
                None,
            ),
            (ConnectionPhase::TlsHandshaking, ReadEvent::TlsContinues) => ReadOutcome::Stop(
                connection,
                None,
            ),
            (ConnectionPhase::TlsHandshaking, ReadEvent::TlsDone(step)) => {
                Self::handle_handshake_result(connection, step)
            },
            (ConnectionPhase::WsHandshaking, ReadEvent::WouldBlock) => ReadOutcome::Stop(
                connection,
                None,
            ),
            (ConnectionPhase::WsHandshaking, ReadEvent::WsStep(step)) => {
                Self::handle_handshake_result(connection, step)
            },
            (ConnectionPhase::Active, ReadEvent::WouldBlock) => ReadOutcome::Stop(connection, None),
            (ConnectionPhase::Active, ReadEvent::Message(message)) => ReadOutcome::Stop(
                connection,
                Some(message),
            ),
            _ => ReadOutcome::Dropped,
        }
    }

    fn handle_handshake_result(connection: Self, step: WsHandshake) -> (outcome: ReadOutcome)
        ensures
            step == WsHandshake::Failed ==> outcome is Dropped,
            step == WsHandshake::Done ==> (outcome matches ReadOutcome::Continue(c)
                && c.spec_phase() == ConnectionPhase::Active && c.spec_meta()
                == connection.spec_meta() && c.spec_valid_until() == connection.spec_valid_until() && c.spec_interest()
                == connection.spec_interest() && c.spec_queue() == connection.spec_queue()),
            step == WsHandshake::Interrupted ==> (outcome matches ReadOutcome::Stop(c, None)
                && c.spec_phase() == ConnectionPhase::WsHandshaking && c.spec_meta()
                == connection.spec_meta() && c.spec_valid_until() == connection.spec_valid_until() && c.spec_interest()
                == connection.spec_interest() && c.spec_queue() == connection.spec_queue()),
    {
        let mut connection = connection;
        match step {
            WsHandshake::Done => {
                connection.phase = ConnectionPhase::Active;
                ReadOutcome::Continue(connection)
            },
            WsHandshake::Interrupted => {
                connection.phase = ConnectionPhase::WsHandshaking;
                ReadOutcome::Stop(connection, None)
            },
            WsHandshake::Failed => ReadOutcome::Dropped,
        }
    }

    /// The connection as one that is known to the poll.
    pub fn register(self) -> (connection: Connection<Registered>)
        ensures
            connection.spec_phase() == self.spec_phase(),
            connection.spec_meta() == self.spec_meta(),
            connection.spec_valid_until() == self.spec_valid_until(),
            connection.spec_interest() == self.spec_interest(),
            connection.spec_queue() == self.spec_queue(),
    {
        Connection {
            valid_until: self.valid_until,
            meta: self.meta,
            phase: self.phase,
            message_queue: self.message_queue,
            interest: self.interest,
            phantom_data: PhantomData,
        }
    }

    /// The connection at its end: what still waits to be written is lost.
    pub fn close(self) -> (connection: Self)
        ensures
            connection.spec_phase() == ConnectionPhase::Closing,
            connection.spec_meta() == self.spec_meta(),
            connection.spec_valid_until() == self.spec_valid_until(),
            connection.spec_interest() == self.spec_interest(),
            connection.spec_queue() == Seq::<OutMessage>::empty(),
    {
        Connection {
            valid_until: self.valid_until,
            meta: self.meta,
            phase: ConnectionPhase::Closing,
            message_queue: VecDeque::new(),
            interest: self.interest,
            phantom_data: PhantomData,
        }
    }
}

impl Connection<Registered> {
    /// Takes in what writing the message to the stream came to. A
    /// message that could not be written because the stream would block
    /// waits to be written later, behind those that wait already, unless
    /// as many wait as may: then it is lost. With the first message that
    /// waits, the connection begins to wait for the stream to become
    /// writable. Returns whether the poll is to be told so.
    pub fn write_or_queue_message(&mut self, message: OutMessage, result: WriteResult) -> (reregister:
        Result<bool, ConnectionError>)
        requires
            old(self).wf(),
        ensures
            final(self).wf(),
            final(self).spec_phase() == old(self).spec_phase(),
            final(self).spec_meta() == old(self).spec_meta(),
            final(self).spec_valid_until() == old(self).spec_valid_until(),
            match result {
                WriteResult::Written => reregister == Ok::<bool, ConnectionError>(false)
                    && final(self).spec_queue() == old(self).spec_queue() && final(self).spec_interest() == old(self).spec_interest(),
                WriteResult::Failed => reregister == Err::<bool, ConnectionError>(
                    ConnectionError::Io,
                ) && final(self).spec_queue() == old(self).spec_queue() && final(self).spec_interest()
                    == old(self).spec_interest(),
                WriteResult::WouldBlock => if old(self).spec_queue().len()
                    < MAX_PENDING_MESSAGES {
                    &&& final(self).spec_queue() == old(self).spec_queue().push(message)
                    &&& final(self).spec_interest() == Interest::Writable
                    &&& reregister == Ok::<bool, ConnectionError>(
                        old(self).spec_interest() != Interest::Writable,
                    )
                } else {
                    &&& final(self).spec_queue() == old(self).spec_queue()
                    &&& final(self).spec_interest() == old(self).spec_interest()
                    &&& reregister == Ok::<bool, ConnectionError>(false)
                },
            },
    {
        match result {
            WriteResult::Written => Ok(false),
            WriteResult::Failed => Err(ConnectionError::Io),
            WriteResult::WouldBlock => {
                if self.message_queue.len() < MAX_PENDING_MESSAGES {
                    self.message_queue.push_back(message);
                    if self.interest != Interest::Writable {
                        self.interest = Interest::Writable;
                        Ok(true)
                    } else {
                        Ok(false)
                    }
                } else {
                    Ok(false)
                }
            },
        }
    }

    /// The message that is to be written next of those that wait, which
    /// waits no longer. There is none for a connection that is not
    /// active.
    pub fn next_queued(&mut self) -> (next: Result<Option<OutMessage>, ConnectionError>)
        requires
            old(self).wf(),
        ensures
            final(self).wf(),
            final(self).spec_phase() == old(self).spec_phase(),
            final(self).spec_meta() == old(self).spec_meta(),
            final(self).spec_valid_until() == old(self).spec_valid_until(),
            final(self).spec_interest() == old(self).spec_interest(),
            old(self).spec_phase() != ConnectionPhase::Active ==> next == Err::<
                Option<OutMessage>,
                ConnectionError,
            >(ConnectionError::NotConnected) && final(self).spec_queue() == old(self).spec_queue(),
            old(self).spec_phase() == ConnectionPhase::Active && old(self).spec_queue().len() == 0
                ==> next == Ok::<Option<OutMessage>, ConnectionError>(None) && final(self).spec_queue() == old(self).spec_queue(),
            old(self).spec_phase() == ConnectionPhase::Active && old(self).spec_queue().len() > 0
                ==> next == Ok::<Option<OutMessage>, ConnectionError>(
                Some(old(self).spec_queue()[0]),
            ) && final(self).spec_queue() == old(self).spec_queue().subrange(
                1,
                old(self).spec_queue().len() as int,
            ),
    {
        if self.phase != ConnectionPhase::Active {
            return Err(ConnectionError::NotConnected);
        }
        Ok(self.message_queue.pop_front())
    }

    /// Takes in what writing a message that had waited came to. One
    /// that could not be written because the stream would block waits
    /// again, before all others. Returns whether writing goes on with the
    /// next message that waits.
    pub fn queued_written(&mut self, message: OutMessage, result: WriteResult) -> (goes_on: Result<
        bool,
        ConnectionError,
    >)
        requires
            old(self).spec_queue().len() < MAX_PENDING_MESSAGES,
        ensures
            final(self).wf(),
            final(self).spec_phase() == old(self).spec_phase(),
            final(self).spec_meta() == old(self).spec_meta(),
            final(self).spec_valid_until() == old(self).spec_valid_until(),
            final(self).spec_interest() == old(self).spec_interest(),
            match result {
                WriteResult::Written => goes_on == Ok::<bool, ConnectionError>(true) && final(self).spec_queue() == old(self).spec_queue(),
                WriteResult::WouldBlock => goes_on == Ok::<bool, ConnectionError>(false) && final(self).spec_queue() == seq![message] + old(self).spec_queue(),
                WriteResult::Failed => goes_on == Err::<bool, ConnectionError>(ConnectionError::Io)
                    && final(self).spec_queue() == old(self).spec_queue(),
            },
    {
        match result {
            WriteResult::Written => Ok(true),
            WriteResult::WouldBlock => {
                // Can't make message queue longer than it was before the
                // message was taken from it
                self.message_queue.push_front(message);
                Ok(false)
            },
            WriteResult::Failed => Err(ConnectionError::Io),
        }
    }

    /// Ends a round of writing: a connection with no message waiting
    /// waits to be read from again.
    pub fn finish_write(&mut self)
        ensures
            final(self).spec_phase() == old(self).spec_phase(),
            final(self).spec_meta() == old(self).spec_meta(),
            final(self).spec_valid_until() == old(self).spec_valid_until(),
            final(self).spec_queue() == old(self).spec_queue(),
            final(self).spec_interest() == if old(self).spec_queue().len() == 0 {
                Interest::Readable
            } else {
                old(self).spec_interest()
            },
    {
        if self.message_queue.len() == 0 {
            self.interest = Interest::Readable;
        }
    }

    /// The connection as one that is not known to the poll.
    pub fn deregister(self) -> (connection: Connection<NotRegistered>)
        ensures
            connection.spec_phase() == self.spec_phase(),
            connection.spec_meta() == self.spec_meta(),
            connection.spec_valid_until() == self.spec_valid_until(),
            connection.spec_interest() == self.spec_interest(),
            connection.spec_queue() == self.spec_queue(),
    {
        Connection {
            valid_until: self.valid_until,
            meta: self.meta,
            phase: self.phase,
            message_queue: self.message_queue,
            interest: self.interest,
            phantom_data: PhantomData,
        }
    }
}

} // verus!
