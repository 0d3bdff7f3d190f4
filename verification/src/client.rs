//! One connection: the phases it goes through, what it wants to be
//! woken for, and what every event does to it. It owns no socket: bytes
//! come in as arguments, and what is to be sent waits in a queue.

use crate::endian::{be_bytes, be_value, read_u16_be, write_u16_be};
use crate::frame::{
    append_bytes, decode, encode, frame_of, FrameView, OpCode, ReadError, WebSocketFrame,
};
use crate::handler::{HandlerView, HttpParserHandler};
use crate::handshake::{
    accept_key, gen_key, handshake_response, is_nonce, is_websocket, names_websocket,
    response_text, valid_key, KEY_HEADER, REJECTION, UPGRADE_HEADER,
};
use vstd::prelude::*;
use vstd::slice::{slice_subrange, slice_to_vec};
use vstd::string::StringSliceAdditionalSpecFns;
use vstd::utf8::encode_utf8;

verus! {

/// The status code of a close frame that answers a protocol violation.
pub const CLOSE_PROTOCOL_ERROR: u16 = 1002;

/// The phases of a connection, in the order in which it goes through
/// them. It never goes back.
#[derive(Debug, Clone, Copy, PartialEq, Eq, Structural)]
pub enum ClientState {
    /// The upgrade request has not been read to its end.
    AwaitingHandshake,
    /// The request asked for an upgrade; the response is to be written.
    HandshakeResponse,
    /// Open: frames flow in both directions.
    Connected,
    /// This side has queued or sent its close frame and waits for the
    /// peer's.
    ClosingSent,
    /// The peer's close frame has come, and the close frame of this side
    /// is not yet flushed.
    ClosingReceived,
    /// Nothing more happens; the connection is to be released.
    Closed,
}

impl ClientState {
    /// The place of a phase in their order.
    pub open spec fn spec_rank(self) -> u8 {
        match self {
            ClientState::AwaitingHandshake => 0,
            ClientState::HandshakeResponse => 1,
            ClientState::Connected => 2,
            ClientState::ClosingSent => 3,
            ClientState::ClosingReceived => 4,
            ClientState::Closed => 5,
        }
    }

    /// Whether frames are read in this phase.
    pub open spec fn spec_reads_frames(self) -> bool {
        self == ClientState::Connected || self == ClientState::ClosingSent
    }

    /// Whether a close frame has gone one way or the other.
    pub open spec fn spec_is_closing(self) -> bool {
        self == ClientState::ClosingSent || self == ClientState::ClosingReceived
    }

    #[verifier::when_used_as_spec(spec_rank)]
    pub fn rank(self) -> (r: u8)
        ensures
            r == self.spec_rank(),
    {
        match self {
            ClientState::AwaitingHandshake => 0,
            ClientState::HandshakeResponse => 1,
            ClientState::Connected => 2,
            ClientState::ClosingSent => 3,
            ClientState::ClosingReceived => 4,
            ClientState::Closed => 5,
        }
    }

    #[verifier::when_used_as_spec(spec_reads_frames)]
    pub fn reads_frames(self) -> (r: bool)
        ensures
            r == self.spec_reads_frames(),
    {
        match self {
            ClientState::Connected | ClientState::ClosingSent => true,
            _ => false,
        }
    }

    #[verifier::when_used_as_spec(spec_is_closing)]
    pub fn is_closing(self) -> (r: bool)
        ensures
            r == self.spec_is_closing(),
    {
        match self {
            ClientState::ClosingSent | ClientState::ClosingReceived => true,
            _ => false,
        }
    }
}

/// The kinds of readiness that a connection wants to be woken for.
#[derive(Debug, Clone, Copy, PartialEq, Eq, Structural)]
pub struct Interest {
    pub readable: bool,
    pub writable: bool,
}

/// What a connection in a phase wants to be woken for: for input while
/// it reads, for room to write while it has something to send.
pub open spec fn interest_of(state: ClientState, pending: bool) -> Interest {
    match state {
        ClientState::AwaitingHandshake => Interest { readable: true, writable: false },
        ClientState::HandshakeResponse => Interest { readable: false, writable: true },
        ClientState::Connected => Interest { readable: true, writable: pending },
        ClientState::ClosingSent => Interest { readable: true, writable: pending },
        ClientState::ClosingReceived => Interest { readable: false, writable: pending },
        ClientState::Closed => Interest { readable: false, writable: false },
    }
}

/// What the tokenizer of HTTP said of the bytes it was given.
#[derive(Debug, Clone, Copy, PartialEq, Eq, Structural)]
pub struct ParseStatus {
    /// The bytes are no HTTP.
    pub has_error: bool,
    /// The request asks for an upgrade of the protocol.
    pub is_upgrade: bool,
}

/// What a connection hands to the application.
#[derive(Debug)]
pub enum Event {
    /// A whole message, put together from its fragments.
    Message { is_text: bool, payload: Vec<u8> },
    /// The peer's close frame, with the status code and the reason it
    /// gave.
    Close { code: Option<u16>, reason: Vec<u8> },
}

/// An event as a value.
pub enum EventView {
    Message { is_text: bool, payload: Seq<u8> },
    Close { code: Option<u16>, reason: Seq<u8> },
}

impl View for Event {
    type V = EventView;

    open spec fn view(&self) -> EventView {
        match *self {
            Event::Message { is_text, payload } => EventView::Message {
                is_text,
                payload: payload@,
            },
            Event::Close { code, reason } => EventView::Close { code, reason: reason@ },
        }
    }
}

/// The events of a list, each as a value.
pub open spec fn events_of(events: Seq<Event>) -> Seq<EventView> {
    Seq::new(events.len(), |i: int| events[i]@)
}

/// What was handed to the application, if anything, as a value.
pub open spec fn event_of(event: Option<Event>) -> Option<EventView> {
    match event {
        Some(e) => Some(e@),
        None => None,
    }
}

/// The status code at the head of a close frame's payload, if it has
/// one.
pub open spec fn close_code(payload: Seq<u8>) -> Option<u16> {
    if payload.len() >= 2 {
        Some(be_value(payload.subrange(0, 2)) as u16)
    } else {
        None
    }
}

/// The reason in a close frame's payload: what follows the status code
/// or, where there is no room for a code, all of it.
pub open spec fn close_reason(payload: Seq<u8>) -> Seq<u8> {
    if payload.len() >= 2 {
        payload.skip(2)
    } else {
        payload
    }
}

/// The close frame that answers a peer's close frame: it repeats the
/// status code, if there was one, and gives no reason.
pub open spec fn close_echo(payload: Seq<u8>) -> FrameView {
    frame_of(
        OpCode::ConnectionClose,
        if payload.len() >= 2 {
            payload.subrange(0, 2)
        } else {
            Seq::empty()
        },
    )
}

/// The close frame that carries a status code and no reason.
pub open spec fn close_frame(code: u16) -> FrameView {
    frame_of(OpCode::ConnectionClose, be_bytes(code as nat, 2))
}

/// A connection as a value.
pub struct ClientView {
    pub handler: HandlerView,
    pub interest: Interest,
    pub state: ClientState,
    /// Bytes that came in and are not yet a whole frame.
    pub inbound: Seq<u8>,
    /// Bytes that wait to be written, first in first out.
    pub outbound: Seq<u8>,
    /// The message under way: the opcode of its first frame and the
    /// payload gathered so far.
    pub message: Option<(OpCode, Seq<u8>)>,
    /// The payload of the peer's close frame, once it has come.
    pub peer_close: Option<Seq<u8>>,
    /// When the peer was last heard of before any close frame.
    pub last_active: u64,
    /// How long the peer may stay silent.
    pub idle_timeout: u64,
    /// How long the closing handshake may take.
    pub close_timeout: u64,
}

impl ClientView {
    /// The same connection with the interest that fits its phase and
    /// its queue.
    pub open spec fn settled(self) -> ClientView {
        ClientView { interest: interest_of(self.state, self.outbound.len() > 0), ..self }
    }

    /// The connection in the given phase.
    pub open spec fn moved(self, state: ClientState) -> ClientView {
        ClientView { state, ..self }.settled()
    }

    /// The connection with more bytes in its queue.
    pub open spec fn queued(self, bytes: Seq<u8>) -> ClientView {
        ClientView { outbound: self.outbound + bytes, ..self }.settled()
    }

    /// A new connection, at the time `now`.
    pub open spec fn fresh(now: u64, idle_timeout: u64, close_timeout: u64) -> ClientView {
        ClientView {
            handler: HandlerView {
                current_key: None,
                headers: Map::empty(),
                complete: false,
            },
            interest: Interest { readable: true, writable: false },
            state: ClientState::AwaitingHandshake,
            inbound: Seq::empty(),
            outbound: Seq::empty(),
            message: None,
            peer_close: None,
            last_active: now,
            idle_timeout,
            close_timeout,
        }
    }

    /// The connection once its request was found wanting: the
    /// rejection is queued, to be written if it can be, and the
    /// connection is closed.
    pub open spec fn rejected(self) -> ClientView {
        self.queued(encode_utf8(REJECTION@)).moved(ClientState::Closed)
    }

    /// Whether the request asks to switch to the WebSocket protocol:
    /// the tokenizer saw a request for an upgrade, and the upgrade
    /// header names the protocol.
    pub open spec fn asks_for_websocket(self, status: ParseStatus) -> bool {
        &&& status.is_upgrade
        &&& self.handler.headers.contains_key(UPGRADE_HEADER@)
        &&& names_websocket(self.handler.headers[UPGRADE_HEADER@])
    }

    /// What the tokenizer's verdict on the request does. An error
    /// closes the connection. Headers that have not ended change
    /// nothing. A request to switch to the WebSocket protocol makes
    /// the response due. Any other request is rejected.
    pub open spec fn after_handshake(self, status: ParseStatus) -> ClientView {
        if self.state != ClientState::AwaitingHandshake {
            self
        } else if status.has_error {
            self.moved(ClientState::Closed)
        } else if !self.handler.complete {
            self
        } else if self.asks_for_websocket(status) {
            self.moved(ClientState::HandshakeResponse)
        } else {
            self.rejected()
        }
    }

    /// What room to write does. Where the response is due, it is queued
    /// and the connection opens, if the request holds a well-formed
    /// key; if not, the request is rejected, and no part of the
    /// response is queued. In the other phases it does nothing.
    pub open spec fn after_writable(self) -> ClientView {
        if self.state != ClientState::HandshakeResponse {
            self
        } else if self.handler.headers.contains_key(KEY_HEADER@) && is_nonce(
            encode_utf8(self.handler.headers[KEY_HEADER@]),
        ) {
            self.queued(
                encode_utf8(response_text(accept_key(self.handler.headers[KEY_HEADER@]))),
            ).moved(ClientState::Connected)
        } else {
            self.rejected()
        }
    }

    /// What follows when `n` bytes of the queue were written: they
    /// leave the queue, and once the queue is empty after the peer's
    /// close frame, the connection is closed.
    pub open spec fn after_written(self, n: nat) -> ClientView {
        let k = if n <= self.outbound.len() {
            n
        } else {
            self.outbound.len()
        };
        let rest = ClientView { outbound: self.outbound.skip(k as int), ..self };
        if rest.state == ClientState::ClosingReceived && rest.outbound.len() == 0 {
            rest.moved(ClientState::Closed)
        } else {
            rest.settled()
        }
    }

    /// The connection once this side has begun the closing handshake:
    /// the unfinished message is dropped, and a close frame with the
    /// status code is queued.
    pub open spec fn closing_with(self, code: u16) -> ClientView {
        ClientView { message: None, ..self }.queued(encode(close_frame(code))).moved(
            ClientState::ClosingSent,
        )
    }

    /// What a protocol violation does to an open connection: the
    /// closing handshake begins with the status "protocol error".
    pub open spec fn violated(self) -> ClientView {
        self.closing_with(CLOSE_PROTOCOL_ERROR)
    }

    /// What the peer's close frame does. An open connection queues the
    /// echo and waits for it to be flushed. A connection that had sent
    /// its own close frame is closed, once that frame is flushed.
    pub open spec fn peer_closed(self, payload: Seq<u8>) -> ClientView {
        let noted = ClientView { message: None, peer_close: Some(payload), ..self };
        if self.state == ClientState::Connected {
            noted.queued(encode(close_echo(payload))).moved(ClientState::ClosingReceived)
        } else if noted.outbound.len() == 0 {
            noted.moved(ClientState::Closed)
        } else {
            noted.moved(ClientState::ClosingReceived)
        }
    }

    /// What one frame does, and what it hands to the application.
    ///
    /// Open: a frame without mask is a violation, and so is a
    /// continuation of nothing, and a new message within an unfinished
    /// one. A final data frame is delivered; a fragment is kept, and
    /// the message is delivered with the final continuation, as text
    /// if its first frame was text. A ping queues a pong with the same
    /// payload. A pong does nothing. A close frame is handed on and
    /// begins the closing handshake.
    ///
    /// After this side's close frame, only the peer's close frame
    /// counts; other frames are dropped. In the other phases every
    /// frame is dropped.
    pub open spec fn on_frame(self, frame: FrameView) -> (ClientView, Option<EventView>) {
        let closing = EventView::Close {
            code: close_code(frame.payload),
            reason: close_reason(frame.payload),
        };
        if self.state == ClientState::ClosingSent {
            if frame.header.opcode == OpCode::ConnectionClose {
                (self.peer_closed(frame.payload), Some(closing))
            } else {
                (self, None)
            }
        } else if self.state != ClientState::Connected {
            (self, None)
        } else if !frame.header.masked {
            (self.violated(), None)
        } else {
            match frame.header.opcode {
                OpCode::TextFrame | OpCode::BinaryFrame => {
                    if self.message is Some {
                        (self.violated(), None)
                    } else if frame.header.fin {
                        (
                            self,
                            Some(
                                EventView::Message {
                                    is_text: frame.header.opcode == OpCode::TextFrame,
                                    payload: frame.payload,
                                },
                            ),
                        )
                    } else {
                        (
                            ClientView {
                                message: Some((frame.header.opcode, frame.payload)),
                                ..self
                            },
                            None,
                        )
                    }
                },
                OpCode::Continuation => match self.message {
                    None => (self.violated(), None),
                    Some((opcode, so_far)) => if frame.header.fin {
                        (
                            ClientView { message: None, ..self },
                            Some(
                                EventView::Message {
                                    is_text: opcode == OpCode::TextFrame,
                                    payload: so_far + frame.payload,
                                },
                            ),
                        )
                    } else {
                        (
                            ClientView {
                                message: Some((opcode, so_far + frame.payload)),
                                ..self
                            },
                            None,
                        )
                    },
                },
                OpCode::Ping => (self.queued(encode(frame_of(OpCode::Pong, frame.payload))), None),
                OpCode::Pong => (self, None),
                OpCode::ConnectionClose => (self.peer_closed(frame.payload), Some(closing)),
            }
        }
    }

    /// What bytes that cannot begin any frame do: to an open
    /// connection what every violation does, and the bytes are
    /// dropped; after this side's close frame, the connection is
    /// closed.
    pub open spec fn broken(self) -> ClientView {
        let emptied = ClientView { inbound: Seq::empty(), ..self };
        if self.state == ClientState::Connected {
            emptied.violated()
        } else {
            emptied.moved(ClientState::Closed)
        }
    }

    /// What the bytes that came in do, frame by frame, until what is
    /// left is no whole frame or the connection reads no more; and the
    /// events that they give, in their order.
    pub open spec fn drain(self) -> (ClientView, Seq<EventView>)
        decreases self.inbound.len(),
        via Self::drain_decreases
    {
        if !self.state.spec_reads_frames() {
            (self, Seq::empty())
        } else {
            match decode(self.inbound) {
                Err(ReadError::NeedMoreData) => (self, Seq::empty()),
                Err(ReadError::ProtocolError(_)) => (self.broken(), Seq::empty()),
                Ok((frame, used)) => {
                    let (next, event) = self.on_frame(frame);
                    let (last, events) = ClientView {
                        inbound: self.inbound.skip(used as int),
                        ..next
                    }.drain();
                    (
                        last,
                        match event {
                            Some(e) => seq![e] + events,
                            None => events,
                        },
                    )
                },
            }
        }
    }

    #[via_fn]
    proof fn drain_decreases(self) {
        crate::frame::lemma_decode_bounds(self.inbound);
    }

    /// What more bytes from the peer do.
    pub open spec fn received(self, data: Seq<u8>) -> (ClientView, Seq<EventView>) {
        ClientView { inbound: self.inbound + data, ..self }.drain()
    }

    /// What a wake-up for input does: while the upgrade request is
    /// awaited, the tokenizer's verdict counts; while frames are read,
    /// the bytes do; in the other phases nothing is read.
    pub open spec fn after_readable(self, data: Seq<u8>, status: ParseStatus) -> (
        ClientView,
        Seq<EventView>,
    ) {
        if self.state == ClientState::AwaitingHandshake {
            (self.after_handshake(status), Seq::empty())
        } else if self.state.spec_reads_frames() {
            self.received(data)
        } else {
            (self, Seq::empty())
        }
    }

    /// The connection once the peer was heard of at the time `now`.
    /// While a close frame is under way the clock is not wound up.
    pub open spec fn touched(self, now: u64) -> ClientView {
        if self.state.spec_rank() <= ClientState::Connected.spec_rank() {
            ClientView { last_active: now, ..self }
        } else {
            self
        }
    }

    /// How long the connection may stay silent in its phase: for the
    /// idle timeout, and while it is closing no longer than for the
    /// timeout of the closing handshake.
    pub open spec fn time_limit(self) -> u64 {
        if self.state.spec_is_closing() && self.close_timeout < self.idle_timeout {
            self.close_timeout
        } else {
            self.idle_timeout
        }
    }

    /// Whether the connection has been silent for too long at the
    /// time `now`.
    pub open spec fn expired(self, now: u64) -> bool {
        self.state != ClientState::Closed && now - self.last_active > self.time_limit()
    }

    /// What the clock does: a connection that has expired is closed.
    pub open spec fn after_tick(self, now: u64) -> ClientView {
        if self.expired(now) {
            self.moved(ClientState::Closed)
        } else {
            self
        }
    }

    /// What the application's wish to send a message does: on an open
    /// connection its frame is queued.
    pub open spec fn after_send(self, payload: Seq<u8>, is_text: bool) -> ClientView {
        if self.state == ClientState::Connected {
            self.queued(
                encode(
                    frame_of(
                        if is_text {
                            OpCode::TextFrame
                        } else {
                            OpCode::BinaryFrame
                        },
                        payload,
                    ),
                ),
            )
        } else {
            self
        }
    }

    /// What the application's wish to close does: on an open
    /// connection a close frame with the code is queued, and the
    /// closing handshake begins.
    pub open spec fn after_close(self, code: u16) -> ClientView {
        if self.state == ClientState::Connected {
            self.closing_with(code)
        } else {
            self
        }
    }
}

/// One connection.
#[derive(Debug)]
pub struct WebSocketClient {
    pub handler: HttpParserHandler,
    pub interest: Interest,
    pub state: ClientState,
    /// Bytes that came in and are not yet a whole frame.
    pub inbound: Vec<u8>,
    /// Bytes that wait to be written, first in first out.
    pub outbound: Vec<u8>,
    /// The opcode of the first frame of the message under way.
    pub message_opcode: Option<OpCode>,
    /// The payload of the message under way, as far as it has come.
    pub message_payload: Vec<u8>,
    /// The payload of the peer's close frame, once it has come.
    pub peer_close: Option<Vec<u8>>,
    /// When the peer was last heard of before any close frame.
    pub last_active: u64,
    /// How long the peer may stay silent.
    pub idle_timeout: u64,
    /// How long the closing handshake may take.
    pub close_timeout: u64,
}

impl View for WebSocketClient {
    type V = ClientView;

    open spec fn view(&self) -> ClientView {
        ClientView {
            handler: self.handler@,
            interest: self.interest,
            state: self.state,
            inbound: self.inbound@,
            outbound: self.outbound@,
            message: match self.message_opcode {
                Some(opcode) => Some((opcode, self.message_payload@)),
                None => None,
            },
            peer_close: match self.peer_close {
                Some(payload) => Some(payload@),
                None => None,
            },
            last_active: self.last_active,
            idle_timeout: self.idle_timeout,
            close_timeout: self.close_timeout,
        }
    }
}

impl WebSocketClient {
    /// The headers hold each name once, and the interest is the one
    /// that fits the phase and the queue.
    pub open spec fn wf(&self) -> bool {
        &&& self.handler.wf()
        &&& self.interest == interest_of(self.state, self.outbound@.len() > 0)
    }

    /// A connection that was accepted at the time `now`: it waits for
    /// the upgrade request, and wants to be woken for input.
    pub fn new(now: u64, idle_timeout: u64, close_timeout: u64) -> (client: WebSocketClient)
        ensures
            client.wf(),
            client@ == ClientView::fresh(now, idle_timeout, close_timeout),
    {
        WebSocketClient {
            handler: HttpParserHandler::new(),
            interest: Interest { readable: true, writable: false },
            state: ClientState::AwaitingHandshake,
            inbound: Vec::new(),
            outbound: Vec::new(),
            message_opcode: None,
            message_payload: Vec::new(),
            peer_close: None,
            last_active: now,
            idle_timeout,
            close_timeout,
        }
    }

    /// Sets the interest that fits the phase and the queue.
    fn settle(&mut self)
        ensures
            final(self)@ == old(self)@.settled(),
            final(self).handler == old(self).handler,
    {
        let pending: bool = self.outbound.len() > 0;
        self.interest = match self.state {
            ClientState::AwaitingHandshake => Interest { readable: true, writable: false },
            ClientState::HandshakeResponse => Interest { readable: false, writable: true },
            ClientState::Connected => Interest { readable: true, writable: pending },
            ClientState::ClosingSent => Interest { readable: true, writable: pending },
            ClientState::ClosingReceived => Interest { readable: false, writable: pending },
            ClientState::Closed => Interest { readable: false, writable: false },
        };
    }

    /// Takes the tokenizer's verdict on the bytes of the upgrade
    /// request, after the handler has taken the headers in them. Once
    /// the handshake is over, no verdict changes anything.
    pub fn read_handshake(&mut self, status: ParseStatus)
        requires
            old(self).wf(),
        ensures
            final(self).wf(),
            final(self)@ == old(self)@.after_handshake(status),
    {
        if self.state != ClientState::AwaitingHandshake {
        } else if status.has_error {
            self.state = ClientState::Closed;
            self.settle();
        } else if !self.handler.complete {
        } else {
            let wanted: bool = status.is_upgrade && match self.handler.headers.get(UPGRADE_HEADER) {
                Some(protocol) => is_websocket(protocol.as_str()),
                None => false,
            };
            if wanted {
                self.state = ClientState::HandshakeResponse;
                self.settle();
            } else {
                self.reject();
            }
        }
    }

    /// Answers a request that is found wanting, and closes.
    fn reject(&mut self)
        requires
            old(self).wf(),
        ensures
            final(self).wf(),
            final(self)@ == old(self)@.rejected(),
    {
        append_bytes(&mut self.outbound, REJECTION.as_bytes());
        self.state = ClientState::Closed;
        self.settle();
    }

    /// Prepares what is to be written now that there is room: where
    /// the handshake response is due, derives the accept key from the
    /// request's key and queues the response, or rejects the request
    /// if the key is missing or malformed. What is then in the queue is
    /// to be written; `advance` takes what was written.
    pub fn write(&mut self)
        requires
            old(self).wf(),
        ensures
            final(self).wf(),
            final(self)@ == old(self)@.after_writable(),
    {
        if self.state == ClientState::HandshakeResponse {
            let accept: Option<String> = match self.handler.headers.get(KEY_HEADER) {
                Some(key) => {
                    if valid_key(key.as_str()) {
                        Some(gen_key(key))
                    } else {
                        None
                    }
                },
                None => None,
            };
            match accept {
                Some(accept) => {
                    let response = handshake_response(accept.as_str());
                    append_bytes(&mut self.outbound, response.as_str().as_bytes());
                    self.state = ClientState::Connected;
                    self.settle();
                },
                None => {
                    self.reject();
                },
            }
        }
    }

    /// The bytes that wait to be written, in their order.
    pub fn pending(&self) -> (bytes: &[u8])
        ensures
            bytes@ == self@.outbound,
    {
        self.outbound.as_slice()
    }

    /// Takes note that the first `n` bytes of the queue were written.
    pub fn advance(&mut self, n: usize)
        requires
            old(self).wf(),
        ensures
            final(self).wf(),
            final(self)@ == old(self)@.after_written(n as nat),
    {
        let k: usize = if n <= self.outbound.len() {
            n
        } else {
            self.outbound.len()
        };
        let rest = self.outbound.split_off(k);
        self.outbound = rest;
        if self.state == ClientState::ClosingReceived && self.outbound.len() == 0 {
            self.state = ClientState::Closed;
        }
        self.settle();
    }
}

impl WebSocketClient {
    /// Begins the closing handshake with the status code.
    fn begin_close(&mut self, code: u16)
        requires
            old(self).wf(),
        ensures
            final(self).wf(),
            final(self)@ == old(self)@.closing_with(code),
    {
        self.message_opcode = None;
        let status = write_u16_be(code);
        let frame = WebSocketFrame::new(OpCode::ConnectionClose, slice_to_vec(status.as_slice()));
        frame.write(&mut self.outbound);
        self.state = ClientState::ClosingSent;
        self.settle();
    }

    /// Takes the peer's close frame, and hands on what it said.
    fn peer_closes(&mut self, payload: Vec<u8>) -> (event: Event)
        requires
            old(self).wf(),
        ensures
            final(self).wf(),
            final(self)@ == old(self)@.peer_closed(payload@),
            event@ == (EventView::Close {
                code: close_code(payload@),
                reason: close_reason(payload@),
            }),
    {
        let len: usize = payload.len();
        let code: Option<u16> = if len >= 2 {
            Some(read_u16_be(payload.as_slice()))
        } else {
            None
        };
        let reason: Vec<u8> = if len >= 2 {
            slice_to_vec(slice_subrange(payload.as_slice(), 2, len))
        } else {
            slice_to_vec(payload.as_slice())
        };
        let status: Vec<u8> = if len >= 2 {
            slice_to_vec(slice_subrange(payload.as_slice(), 0, 2))
        } else {
            Vec::new()
        };
        self.message_opcode = None;
        self.peer_close = Some(payload);
        if self.state == ClientState::Connected {
            let echo = WebSocketFrame::new(OpCode::ConnectionClose, status);
            echo.write(&mut self.outbound);
            self.state = ClientState::ClosingReceived;
        } else if self.outbound.len() == 0 {
            self.state = ClientState::Closed;
        } else {
            self.state = ClientState::ClosingReceived;
        }
        self.settle();
        Event::Close { code, reason }
    }

    /// Takes one frame, and says what it hands to the application.
    pub fn handle_frame(&mut self, frame: WebSocketFrame) -> (event: Option<Event>)
        requires
            old(self).wf(),
        ensures
            final(self).wf(),
            (final(self)@, event_of(event)) == old(self)@.on_frame(frame@),
    {
        let WebSocketFrame { header, mask: _, payload } = frame;
        if self.state == ClientState::ClosingSent {
            if header.opcode == OpCode::ConnectionClose {
                return Some(self.peer_closes(payload));
            } else {
                return None;
            }
        }
        if self.state != ClientState::Connected {
            return None;
        }
        if !header.masked {
            self.begin_close(CLOSE_PROTOCOL_ERROR);
            return None;
        }
        match header.opcode {
            OpCode::TextFrame | OpCode::BinaryFrame => {
                if self.message_opcode.is_some() {
                    self.begin_close(CLOSE_PROTOCOL_ERROR);
                    None
                } else if header.fin {
                    Some(Event::Message { is_text: header.opcode == OpCode::TextFrame, payload })
                } else {
                    self.message_opcode = Some(header.opcode);
                    self.message_payload = payload;
                    None
                }
            },
            OpCode::Continuation => match self.message_opcode {
                None => {
                    self.begin_close(CLOSE_PROTOCOL_ERROR);
                    None
                },
                Some(opcode) => {
                    append_bytes(&mut self.message_payload, payload.as_slice());
                    if header.fin {
                        let mut whole: Vec<u8> = Vec::new();
                        std::mem::swap(&mut whole, &mut self.message_payload);
                        self.message_opcode = None;
                        let is_text: bool = opcode == OpCode::TextFrame;
                        Some(Event::Message { is_text, payload: whole })
                    } else {
                        None
                    }
                },
            },
            OpCode::Ping => {
                let pong = WebSocketFrame::new(OpCode::Pong, payload);
                pong.write(&mut self.outbound);
                self.settle();
                None
            },
            OpCode::Pong => None,
            OpCode::ConnectionClose => Some(self.peer_closes(payload)),
        }
    }
}

/// What a frame does to a connection does not depend on the bytes that
/// wait behind it, and leaves them alone.
pub proof fn lemma_on_frame_inbound(client: ClientView, frame: FrameView, inbound: Seq<u8>)
    ensures
        (ClientView { inbound, ..client }).on_frame(frame) == (
            ClientView { inbound, ..client.on_frame(frame).0 },
            client.on_frame(frame).1,
        ),
{
}

impl WebSocketClient {
    /// Gives up on bytes that cannot begin any frame.
    fn break_off(&mut self)
        requires
            old(self).wf(),
            old(self).state.reads_frames(),
            old(self).inbound@.len() == 0,
        ensures
            final(self).wf(),
            final(self)@ == old(self)@.broken(),
    {
        assert(self.inbound@ =~= Seq::<u8>::empty());
        if self.state == ClientState::Connected {
            self.begin_close(CLOSE_PROTOCOL_ERROR);
        } else {
            self.state = ClientState::Closed;
            self.settle();
        }
    }

    /// Takes more bytes from the peer: reads every frame that is whole
    /// now, lets each do its work, keeps what is left for the next
    /// time, and says what is handed to the application, in order.
    /// In a phase in which no frames are read, the bytes are kept and
    /// nothing else happens.
    pub fn read_frame(&mut self, data: &[u8]) -> (events: Vec<Event>)
        requires
            old(self).wf(),
        ensures
            final(self).wf(),
            (final(self)@, events_of(events@)) == old(self)@.received(data@),
    {
        let mut buffer: Vec<u8> = Vec::new();
        std::mem::swap(&mut buffer, &mut self.inbound);
        append_bytes(&mut buffer, data);
        let total: usize = buffer.len();
        let mut events: Vec<Event> = Vec::new();
        let mut at: usize = 0;
        let ghost goal = old(self)@.received(data@);
        assert(buffer@.skip(0) =~= buffer@);
        loop
            invariant_except_break
                self.wf(),
                at <= total,
                total == buffer@.len(),
                self.inbound@.len() == 0,
                ({
                    let now = ClientView { inbound: buffer@.skip(at as int), ..self@ };
                    goal == (now.drain().0, events_of(events@) + now.drain().1)
                }),
            ensures
                self.wf(),
                (self@, events_of(events@)) == goal,
            decreases total - at,
        {
            let ghost now = ClientView { inbound: buffer@.skip(at as int), ..self@ };
            if !self.state.reads_frames() {
                self.inbound = slice_to_vec(slice_subrange(buffer.as_slice(), at, total));
                break;
            }
            match WebSocketFrame::read(slice_subrange(buffer.as_slice(), at, total)) {
                Ok((frame, used)) => {
                    proof {
                        // the frame does its work whatever waits behind it,
                        // and what waits behind it is what is read next
                        crate::frame::lemma_decode_bounds(now.inbound);
                        lemma_on_frame_inbound(self@, frame@, now.inbound);
                        assert(buffer@.skip(at as int).skip(used as int) =~= buffer@.skip(
                            at + used,
                        ));
                    }
                    let event = self.handle_frame(frame);
                    at = at + used;
                    if let Some(e) = event {
                        events.push(e);
                    }
                },
                Err(ReadError::NeedMoreData) => {
                    self.inbound = slice_to_vec(slice_subrange(buffer.as_slice(), at, total));
                    break;
                },
                Err(ReadError::ProtocolError(_)) => {
                    self.break_off();
                    break;
                },
            }
        }
        events
    }
}

impl WebSocketClient {
    /// Takes what came with a wake-up for input. While the upgrade
    /// request is awaited, that is the tokenizer's verdict on the
    /// bytes; while frames are read, it is the bytes themselves. In
    /// the other phases nothing is read.
    pub fn read(&mut self, data: &[u8], status: ParseStatus) -> (events: Vec<Event>)
        requires
            old(self).wf(),
        ensures
            final(self).wf(),
            (final(self)@, events_of(events@)) == old(self)@.after_readable(data@, status),
    {
        match self.state {
            ClientState::AwaitingHandshake => {
                self.read_handshake(status);
                Vec::new()
            },
            ClientState::Connected | ClientState::ClosingSent => self.read_frame(data),
            _ => Vec::new(),
        }
    }

    /// Queues a message for the peer, as one frame, if the connection
    /// is open. Says whether it did.
    pub fn send(&mut self, payload: &[u8], is_text: bool) -> (queued: bool)
        requires
            old(self).wf(),
        ensures
            final(self).wf(),
            queued == (old(self).state == ClientState::Connected),
            final(self)@ == old(self)@.after_send(payload@, is_text),
    {
        if self.state == ClientState::Connected {
            let opcode = if is_text {
                OpCode::TextFrame
            } else {
                OpCode::BinaryFrame
            };
            let frame = WebSocketFrame::new(opcode, slice_to_vec(payload));
            frame.write(&mut self.outbound);
            self.settle();
            true
        } else {
            false
        }
    }

    /// Begins the closing handshake with the status code, if the
    /// connection is open. Says whether it did.
    pub fn close(&mut self, code: u16) -> (begun: bool)
        requires
            old(self).wf(),
        ensures
            final(self).wf(),
            begun == (old(self).state == ClientState::Connected),
            final(self)@ == old(self)@.after_close(code),
    {
        if self.state == ClientState::Connected {
            self.begin_close(code);
            true
        } else {
            false
        }
    }

    /// Takes note that the peer was heard of at the time `now`.
    pub fn touch(&mut self, now: u64)
        requires
            old(self).wf(),
        ensures
            final(self).wf(),
            final(self)@ == old(self)@.touched(now),
    {
        if self.state.rank() <= ClientState::Connected.rank() {
            self.last_active = now;
        }
    }

    /// Closes the connection if it has been silent for too long at the
    /// time `now`. Says whether it closed it.
    pub fn check_timeout(&mut self, now: u64) -> (closed: bool)
        requires
            old(self).wf(),
        ensures
            final(self).wf(),
            closed == old(self)@.expired(now),
            final(self)@ == old(self)@.after_tick(now),
    {
        let limit: u64 = if self.state.is_closing() && self.close_timeout < self.idle_timeout {
            self.close_timeout
        } else {
            self.idle_timeout
        };
        if self.state != ClientState::Closed && now > self.last_active && now - self.last_active
            > limit {
            self.state = ClientState::Closed;
            self.settle();
            true
        } else {
            false
        }
    }
}

/// A connection that is not closed and was silent for longer than its
/// idle timeout is closed by the clock alone: it takes no input.
pub proof fn lemma_idle_connection_closes(client: ClientView, now: u64)
    requires
        client.state != ClientState::Closed,
        now - client.last_active > client.idle_timeout,
    ensures
        client.after_tick(now).state == ClientState::Closed,
        client.after_tick(now).interest == (Interest { readable: false, writable: false }),
{
}

/// On an open connection a frame without mask hands nothing to the
/// application, and queues a close frame with the status "protocol
/// error" behind what was queued before.
pub proof fn lemma_unmasked_frame_violates(client: ClientView, frame: FrameView)
    requires
        client.state == ClientState::Connected,
        !frame.header.masked,
    ensures
        client.on_frame(frame).1 is None,
        client.on_frame(frame).0.state == ClientState::ClosingSent,
        client.on_frame(frame).0.outbound == client.outbound + encode(
            close_frame(CLOSE_PROTOCOL_ERROR),
        ),
{
}

/// The bytes of a frame as a server writes it, which is without mask,
/// are a violation when they reach an open connection: nothing is
/// handed to the application, and the closing handshake begins with the
/// status "protocol error".
pub proof fn lemma_unmasked_bytes_violate(client: ClientView, frame: FrameView)
    requires
        client.state == ClientState::Connected,
        client.inbound.len() == 0,
        frame.valid(),
    ensures
        client.received(encode(frame)) == (client.violated(), Seq::<EventView>::empty()),
{
    let bytes = encode(frame);
    let start = ClientView { inbound: client.inbound + bytes, ..client };
    crate::frame::lemma_decode_encode(frame);
    let (next, event) = start.on_frame(frame.unmasked());
    let rest = ClientView { inbound: start.inbound.skip(bytes.len() as int), ..next };
    assert(rest.inbound =~= Seq::<u8>::empty());
    assert(rest.drain() == (rest, Seq::<EventView>::empty()));
    assert(client.inbound =~= Seq::<u8>::empty());
}

/// Whether no event of a list is a message.
pub open spec fn no_message(events: Seq<EventView>) -> bool {
    forall|i: int| 0 <= i < events.len() ==> #[trigger] events[i] is Close
}

/// A connection that is not open hands no message to the application,
/// whatever bytes wait to be read.
pub proof fn lemma_no_message_unless_open(client: ClientView)
    requires
        client.state != ClientState::Connected,
    ensures
        no_message(client.drain().1),
    decreases client.inbound.len(),
{
    if client.state.spec_reads_frames() {
        if let Ok((frame, used)) = decode(client.inbound) {
            crate::frame::lemma_decode_bounds(client.inbound);
            let (next, event) = client.on_frame(frame);
            lemma_no_message_unless_open(
                ClientView { inbound: client.inbound.skip(used as int), ..next },
            );
        }
    }
}

/// Once a frame without mask has reached an open connection, no message
/// reaches the application: not that frame, and nothing behind it.
pub proof fn lemma_nothing_delivered_after_unmasked_frame(client: ClientView)
    requires
        client.state == ClientState::Connected,
        decode(client.inbound) matches Ok((frame, used)) && !frame.header.masked,
    ensures
        no_message(client.drain().1),
        client.drain().0.state != ClientState::Connected,
{
    let (frame, used) = decode(client.inbound)->Ok_0;
    crate::frame::lemma_decode_bounds(client.inbound);
    let (next, event) = client.on_frame(frame);
    let rest = ClientView { inbound: client.inbound.skip(used as int), ..next };
    lemma_no_message_unless_open(rest);
    lemma_drain_forward(rest);
}

/// A message in three fragments is handed on once, when its last
/// fragment has come, with the payloads joined in their order, and as
/// text or binary as its first frame said.
pub proof fn lemma_fragments_make_one_message(
    client: ClientView,
    first: FrameView,
    middle: FrameView,
    last: FrameView,
)
    requires
        client.state == ClientState::Connected,
        client.message is None,
        first.header.masked && middle.header.masked && last.header.masked,
        first.header.opcode == OpCode::TextFrame || first.header.opcode == OpCode::BinaryFrame,
        middle.header.opcode == OpCode::Continuation,
        last.header.opcode == OpCode::Continuation,
        !first.header.fin && !middle.header.fin && last.header.fin,
    ensures
        ({
            let (one, e1) = client.on_frame(first);
            let (two, e2) = one.on_frame(middle);
            let (three, e3) = two.on_frame(last);
            &&& e1 is None
            &&& e2 is None
            &&& e3 == Some(
                EventView::Message {
                    is_text: first.header.opcode == OpCode::TextFrame,
                    payload: first.payload + middle.payload + last.payload,
                },
            )
            &&& three == client
        }),
{
}

/// No frame takes a connection back to an earlier phase.
pub proof fn lemma_on_frame_forward(client: ClientView, frame: FrameView)
    ensures
        client.on_frame(frame).0.state.spec_rank() >= client.state.spec_rank(),
{
}

/// No bytes from the peer take a connection back to an earlier phase.
pub proof fn lemma_drain_forward(client: ClientView)
    ensures
        client.drain().0.state.spec_rank() >= client.state.spec_rank(),
    decreases client.inbound.len(),
{
    if client.state.spec_reads_frames() {
        if let Ok((frame, used)) = decode(client.inbound) {
            crate::frame::lemma_decode_bounds(client.inbound);
            let (next, event) = client.on_frame(frame);
            lemma_on_frame_forward(client, frame);
            lemma_drain_forward(ClientView { inbound: client.inbound.skip(used as int), ..next });
        }
    }
}

/// What is queued stays queued, in its order, behind nothing new: a
/// frame only ever adds bytes at the end of the queue.
pub proof fn lemma_on_frame_appends(client: ClientView, frame: FrameView)
    ensures
        client.outbound.is_prefix_of(client.on_frame(frame).0.outbound),
{
    let after = client.on_frame(frame).0.outbound;
    assert(after.subrange(0, client.outbound.len() as int) =~= client.outbound);
}

/// Bytes from the peer only ever add bytes at the end of the queue.
pub proof fn lemma_drain_appends(client: ClientView)
    ensures
        client.outbound.is_prefix_of(client.drain().0.outbound),
    decreases client.inbound.len(),
{
    let after = client.drain().0.outbound;
    if client.state.spec_reads_frames() {
        if let Ok((frame, used)) = decode(client.inbound) {
            crate::frame::lemma_decode_bounds(client.inbound);
            let (next, event) = client.on_frame(frame);
            let rest = ClientView { inbound: client.inbound.skip(used as int), ..next };
            lemma_on_frame_appends(client, frame);
            lemma_drain_appends(rest);
            assert(after.subrange(0, client.outbound.len() as int) =~= rest.outbound.subrange(
                0,
                client.outbound.len() as int,
            ));
        }
    }
    assert(after.subrange(0, client.outbound.len() as int) =~= client.outbound);
}

/// The queue is first in, first out: whatever happens to a connection,
/// what was queued before is written before what is queued then, and
/// only what was written leaves the queue, from its head.
pub proof fn lemma_queue_is_fifo(
    client: ClientView,
    data: Seq<u8>,
    status: ParseStatus,
    n: nat,
    now: u64,
    is_text: bool,
    code: u16,
)
    ensures
        client.outbound.is_prefix_of(client.after_readable(data, status).0.outbound),
        client.outbound.is_prefix_of(client.after_writable().outbound),
        client.outbound.is_prefix_of(client.after_send(data, is_text).outbound),
        client.outbound.is_prefix_of(client.after_close(code).outbound),
        client.touched(now).outbound == client.outbound,
        client.after_tick(now).outbound == client.outbound,
        n <= client.outbound.len() ==> client.after_written(n).outbound == client.outbound.skip(
            n as int,
        ),
{
    let len = client.outbound.len() as int;
    lemma_drain_appends(ClientView { inbound: client.inbound + data, ..client });
    assert(client.after_readable(data, status).0.outbound.subrange(0, len) =~= client.outbound);
    assert(client.after_writable().outbound.subrange(0, len) =~= client.outbound);
    assert(client.after_send(data, is_text).outbound.subrange(0, len) =~= client.outbound);
    assert(client.after_close(code).outbound.subrange(0, len) =~= client.outbound);
}

/// Whatever happens to a connection, it never goes back to an earlier
/// phase: not by a wake-up for input or for room to write, not by what
/// was written, not by the clock, and not by what the application asks.
pub proof fn lemma_phases_in_order(
    client: ClientView,
    data: Seq<u8>,
    status: ParseStatus,
    n: nat,
    now: u64,
    is_text: bool,
    code: u16,
)
    ensures
        client.after_readable(data, status).0.state.spec_rank() >= client.state.spec_rank(),
        client.after_writable().state.spec_rank() >= client.state.spec_rank(),
        client.after_written(n).state.spec_rank() >= client.state.spec_rank(),
        client.touched(now).state == client.state,
        client.after_tick(now).state.spec_rank() >= client.state.spec_rank(),
        client.after_send(data, is_text).state == client.state,
        client.after_close(code).state.spec_rank() >= client.state.spec_rank(),
{
    lemma_drain_forward(ClientView { inbound: client.inbound + data, ..client });
}

} // verus!
