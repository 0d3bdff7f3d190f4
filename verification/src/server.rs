//! The registry of connections: it gives each accepted connection an
//! identifier of its own, hands every event to the connection that it
//! is for, and says what the reactor is to do with that connection's
//! registration afterwards.

use crate::client::{
    events_of, ClientState, ClientView, Event, EventView, Interest, ParseStatus, WebSocketClient,
};
use std::collections::HashMap;
use vstd::prelude::*;
use vstd::std_specs::hash::spec_keys_iter;
use vstd::std_specs::iter::IteratorSpec;

verus! {

broadcast use vstd::std_specs::hash::group_hash_axioms;

/// The identifier of the listening socket. No connection has it.
pub const SERVER: usize = 0;

/// What the reactor is to do with a connection's registration.
#[derive(Debug, Clone, Copy, PartialEq, Eq, Structural)]
pub enum Registration {
    /// Register it anew, for one notification of each kind named.
    Renew(Interest),
    /// Take it out of the reactor, and then release the connection.
    Deregister,
}

/// The connections by their identifiers.
pub struct WebSocketServer {
    /// The identifier given out last.
    pub token_counter: usize,
    pub clients: HashMap<usize, WebSocketClient>,
    /// How long a peer may stay silent.
    pub idle_timeout: u64,
    /// How long a closing handshake may take.
    pub close_timeout: u64,
}

/// A registry as a value.
pub struct ServerView {
    pub token_counter: usize,
    pub clients: Map<usize, ClientView>,
    pub idle_timeout: u64,
    pub close_timeout: u64,
}

impl View for WebSocketServer {
    type V = ServerView;

    open spec fn view(&self) -> ServerView {
        ServerView {
            token_counter: self.token_counter,
            clients: Map::new(
                |token: usize| self.clients@.contains_key(token),
                |token: usize| self.clients@[token]@,
            ),
            idle_timeout: self.idle_timeout,
            close_timeout: self.close_timeout,
        }
    }
}

impl ServerView {
    /// The registry with the connection under `token` replaced.
    pub open spec fn with_client(self, token: usize, client: ClientView) -> ServerView {
        ServerView { clients: self.clients.insert(token, client), ..self }
    }

    /// What the reactor is to do with the registration of the
    /// connection under `token`: renew it with the connection's
    /// interest, or take it out if the connection is closed or is not
    /// there.
    pub open spec fn registration(self, token: usize) -> Registration {
        if self.clients.contains_key(token) && self.clients[token].state != ClientState::Closed {
            Registration::Renew(self.clients[token].interest)
        } else {
            Registration::Deregister
        }
    }
}

impl WebSocketServer {
    /// Every connection is well-formed, and its identifier was given
    /// out: it is above the listener's and not above the counter.
    pub open spec fn wf(&self) -> bool {
        forall|token: usize| #[trigger]
            self.clients@.contains_key(token) ==> self.clients@[token].wf() && SERVER < token
                <= self.token_counter
    }

    /// A registry without connections. A connection made by it may
    /// stay silent for `idle_timeout`, and take `close_timeout` for its
    /// closing handshake.
    pub fn new(idle_timeout: u64, close_timeout: u64) -> (server: WebSocketServer)
        ensures
            server.wf(),
            server@ == (ServerView {
                token_counter: 1,
                clients: Map::<usize, ClientView>::empty(),
                idle_timeout,
                close_timeout,
            }),
    {
        let server = WebSocketServer {
            token_counter: 1,
            clients: HashMap::new(),
            idle_timeout,
            close_timeout,
        };
        assert(server@.clients =~= Map::<usize, ClientView>::empty());
        server
    }

    /// Takes in a connection that was accepted at the time `now`, and
    /// gives it an identifier that no connection had before. `None`
    /// once the identifiers have run out; nothing changes then.
    pub fn accept(&mut self, now: u64) -> (token: Option<usize>)
        requires
            old(self).wf(),
        ensures
            final(self).wf(),
            token is Some <==> old(self).token_counter < usize::MAX,
            token is None ==> final(self)@ == old(self)@,
            token matches Some(t) ==> {
                &&& t == old(self).token_counter + 1
                &&& !old(self)@.clients.contains_key(t)
                &&& final(self)@ == (ServerView {
                    token_counter: t,
                    ..old(self)@.with_client(
                        t,
                        ClientView::fresh(now, old(self).idle_timeout, old(self).close_timeout),
                    )
                })
            },
    {
        if self.token_counter == usize::MAX {
            return None;
        }
        self.token_counter = self.token_counter + 1;
        let token: usize = self.token_counter;
        let client = WebSocketClient::new(now, self.idle_timeout, self.close_timeout);
        self.clients.insert(token, client);
        assert(self@.clients =~= old(self)@.clients.insert(
            token,
            ClientView::fresh(now, old(self).idle_timeout, old(self).close_timeout),
        ));
        Some(token)
    }

    /// Whether there is a connection under `token`.
    pub fn contains(&self, token: usize) -> (found: bool)
        ensures
            found == self@.clients.contains_key(token),
    {
        self.clients.contains_key(&token)
    }

    /// How many connections there are.
    pub fn len(&self) -> (n: usize)
        ensures
            n == self@.clients.dom().len(),
    {
        assert(self@.clients.dom() =~= self.clients@.dom());
        self.clients.len()
    }

    /// The phase of the connection under `token`.
    pub fn state(&self, token: usize) -> (state: Option<ClientState>)
        ensures
            state is Some <==> self@.clients.contains_key(token),
            state matches Some(s) ==> s == self@.clients[token].state,
    {
        match self.clients.get(&token) {
            Some(client) => Some(client.state),
            None => None,
        }
    }

    /// What the reactor is to do with the registration of the
    /// connection under `token`, once an event was handled.
    pub fn registration(&self, token: usize) -> (r: Registration)
        ensures
            r == self@.registration(token),
    {
        match self.clients.get(&token) {
            Some(client) => {
                if client.state == ClientState::Closed {
                    Registration::Deregister
                } else {
                    Registration::Renew(client.interest)
                }
            },
            None => Registration::Deregister,
        }
    }
}

impl ServerView {
    /// What a wake-up for input on the connection under `token` does:
    /// the peer was heard of, and the connection takes what came.
    pub open spec fn after_readable(
        self,
        token: usize,
        data: Seq<u8>,
        status: ParseStatus,
        now: u64,
    ) -> (ServerView, Seq<EventView>) {
        if self.clients.contains_key(token) {
            let (client, events) = self.clients[token].touched(now).after_readable(data, status);
            (self.with_client(token, client), events)
        } else {
            (self, Seq::empty())
        }
    }

    /// What a wake-up for room to write on the connection under
    /// `token` does.
    pub open spec fn after_writable(self, token: usize) -> ServerView {
        if self.clients.contains_key(token) {
            self.with_client(token, self.clients[token].after_writable())
        } else {
            self
        }
    }

    /// What follows when `n` bytes of the queue of the connection
    /// under `token` were written.
    pub open spec fn after_written(self, token: usize, n: nat) -> ServerView {
        if self.clients.contains_key(token) {
            self.with_client(token, self.clients[token].after_written(n))
        } else {
            self
        }
    }

    /// What the application's wish to send a message on the connection
    /// under `token` does.
    pub open spec fn after_send(self, token: usize, payload: Seq<u8>, is_text: bool) -> ServerView {
        if self.clients.contains_key(token) {
            self.with_client(token, self.clients[token].after_send(payload, is_text))
        } else {
            self
        }
    }

    /// What the application's wish to close the connection under
    /// `token` does.
    pub open spec fn after_close(self, token: usize, code: u16) -> ServerView {
        if self.clients.contains_key(token) {
            self.with_client(token, self.clients[token].after_close(code))
        } else {
            self
        }
    }

    /// What the clock does to the connection under `token`.
    pub open spec fn after_tick(self, token: usize, now: u64) -> ServerView {
        if self.clients.contains_key(token) {
            self.with_client(token, self.clients[token].after_tick(now))
        } else {
            self
        }
    }
}

impl WebSocketServer {
    /// Puts a connection back under its identifier.
    fn put_back(&mut self, token: usize, client: WebSocketClient, Ghost(before): Ghost<ServerView>)
        requires
            old(self).wf(),
            client.wf(),
            SERVER < token <= old(self).token_counter,
            !old(self).clients@.contains_key(token),
            old(self)@ == (ServerView { clients: before.clients.remove(token), ..before }),
        ensures
            final(self).wf(),
            final(self)@ == before.with_client(token, client@),
    {
        let ghost rest = old(self)@.clients;
        self.clients.insert(token, client);
        assert forall|t: usize| #[trigger] self@.clients.contains_key(t) <==> before.clients.insert(
            token,
            client@,
        ).contains_key(t) by {
            if t != token {
                assert(old(self).clients@.contains_key(t) <==> rest.contains_key(t));
            }
        }
        assert forall|t: usize| #[trigger] self@.clients.contains_key(t) implies self@.clients[t]
            == before.clients.insert(token, client@)[t] by {
            if t != token {
                assert(rest[t] == old(self).clients@[t]@);
            }
        }
        assert(self@.clients =~= before.clients.insert(token, client@));
    }

    /// Takes what came with a wake-up for input on the connection
    /// under `token`, at the time `now`, and says what is handed to
    /// the application. Without such a connection nothing happens.
    pub fn readable(&mut self, token: usize, data: &[u8], status: ParseStatus, now: u64) -> (events:
        Vec<Event>)
        requires
            old(self).wf(),
        ensures
            final(self).wf(),
            (final(self)@, events_of(events@)) == old(self)@.after_readable(
                token,
                data@,
                status,
                now,
            ),
    {
        let ghost before = self@;
        match self.clients.remove(&token) {
            Some(mut client) => {
                assert(self@.clients =~= before.clients.remove(token));
                client.touch(now);
                let events = client.read(data, status);
                self.put_back(token, client, Ghost(before));
                events
            },
            None => {
                assert(self@.clients =~= before.clients);
                let events: Vec<Event> = Vec::new();
                events
            },
        }
    }

    /// Prepares what the connection under `token` is to write now that
    /// there is room.
    pub fn writable(&mut self, token: usize)
        requires
            old(self).wf(),
        ensures
            final(self).wf(),
            final(self)@ == old(self)@.after_writable(token),
    {
        let ghost before = self@;
        match self.clients.remove(&token) {
            Some(mut client) => {
                assert(self@.clients =~= before.clients.remove(token));
                client.write();
                self.put_back(token, client, Ghost(before));
            },
            None => {
                assert(self@.clients =~= before.clients);
            },
        }
    }

    /// The bytes that the connection under `token` has to write, in
    /// their order.
    pub fn pending(&self, token: usize) -> (bytes: Option<&[u8]>)
        ensures
            bytes is Some <==> self@.clients.contains_key(token),
            bytes matches Some(b) ==> b@ == self@.clients[token].outbound,
    {
        match self.clients.get(&token) {
            Some(client) => Some(client.pending()),
            None => None,
        }
    }

    /// Takes note that the first `n` bytes of the queue of the
    /// connection under `token` were written.
    pub fn advance(&mut self, token: usize, n: usize)
        requires
            old(self).wf(),
        ensures
            final(self).wf(),
            final(self)@ == old(self)@.after_written(token, n as nat),
    {
        let ghost before = self@;
        match self.clients.remove(&token) {
            Some(mut client) => {
                assert(self@.clients =~= before.clients.remove(token));
                client.advance(n);
                self.put_back(token, client, Ghost(before));
            },
            None => {
                assert(self@.clients =~= before.clients);
            },
        }
    }

    /// Queues a message on the connection under `token`, if there is
    /// one and it is open. Says whether it did.
    pub fn send(&mut self, token: usize, payload: &[u8], is_text: bool) -> (queued: bool)
        requires
            old(self).wf(),
        ensures
            final(self).wf(),
            queued == (old(self)@.clients.contains_key(token) && old(self)@.clients[token].state
                == ClientState::Connected),
            final(self)@ == old(self)@.after_send(token, payload@, is_text),
    {
        let ghost before = self@;
        match self.clients.remove(&token) {
            Some(mut client) => {
                assert(self@.clients =~= before.clients.remove(token));
                let queued = client.send(payload, is_text);
                self.put_back(token, client, Ghost(before));
                queued
            },
            None => {
                assert(self@.clients =~= before.clients);
                false
            },
        }
    }

    /// Begins the closing handshake on the connection under `token`,
    /// if there is one and it is open. Says whether it did.
    pub fn close(&mut self, token: usize, code: u16) -> (begun: bool)
        requires
            old(self).wf(),
        ensures
            final(self).wf(),
            begun == (old(self)@.clients.contains_key(token) && old(self)@.clients[token].state
                == ClientState::Connected),
            final(self)@ == old(self)@.after_close(token, code),
    {
        let ghost before = self@;
        match self.clients.remove(&token) {
            Some(mut client) => {
                assert(self@.clients =~= before.clients.remove(token));
                let begun = client.close(code);
                self.put_back(token, client, Ghost(before));
                begun
            },
            None => {
                assert(self@.clients =~= before.clients);
                false
            },
        }
    }

    /// Closes the connection under `token` if it has been silent for
    /// too long at the time `now`. Says whether it closed it.
    pub fn check_timeout(&mut self, token: usize, now: u64) -> (closed: bool)
        requires
            old(self).wf(),
        ensures
            final(self).wf(),
            closed == (old(self)@.clients.contains_key(token) && old(self)@.clients[token].expired(
                now,
            )),
            final(self)@ == old(self)@.after_tick(token, now),
    {
        let ghost before = self@;
        match self.clients.remove(&token) {
            Some(mut client) => {
                assert(self@.clients =~= before.clients.remove(token));
                let closed = client.check_timeout(now);
                self.put_back(token, client, Ghost(before));
                closed
            },
            None => {
                assert(self@.clients =~= before.clients);
                false
            },
        }
    }

    /// Releases the connection under `token`, and says whether there
    /// was one. Its identifier is not given out again.
    pub fn remove(&mut self, token: usize) -> (found: bool)
        requires
            old(self).wf(),
        ensures
            final(self).wf(),
            found == old(self)@.clients.contains_key(token),
            final(self)@ == (ServerView {
                clients: old(self)@.clients.remove(token),
                ..old(self)@
            }),
    {
        let removed = self.clients.remove(&token);
        assert(self@.clients =~= old(self)@.clients.remove(token));
        removed.is_some()
    }
}

impl ServerView {
    /// What the clock does to all connections at once.
    pub open spec fn after_sweep(self, now: u64) -> ServerView {
        ServerView {
            clients: Map::new(
                |token: usize| self.clients.contains_key(token),
                |token: usize| self.clients[token].after_tick(now),
            ),
            ..self
        }
    }

    /// The connections that have been silent for too long at the time
    /// `now`.
    pub open spec fn expired(self, now: u64) -> Set<usize> {
        Set::new(
            |token: usize| self.clients.contains_key(token) && self.clients[token].expired(now),
        )
    }
}

impl WebSocketServer {
    /// The identifiers of all connections, each once, in no particular
    /// order.
    pub fn tokens(&self) -> (tokens: Vec<usize>)
        ensures
            tokens@.to_set() == self@.clients.dom(),
            tokens@.no_duplicates(),
    {
        let mut tokens: Vec<usize> = Vec::new();
        for token in iter: self.clients.keys()
            invariant
                iter.seq() == spec_keys_iter(&self.clients).remaining(),
                tokens@ == iter.seq().unref().take(iter.index() as int),
        {
            tokens.push(*token);
        }
        assert(tokens@ =~= spec_keys_iter(&self.clients).remaining().unref());
        tokens
    }

    /// Closes every connection that has been silent for too long at
    /// the time `now`, and names those that it closed, each once, in no
    /// particular order. They are still in the registry: the reactor
    /// takes each out of its poll and then removes it.
    pub fn expire(&mut self, now: u64) -> (closed: Vec<usize>)
        requires
            old(self).wf(),
        ensures
            final(self).wf(),
            final(self)@ == old(self)@.after_sweep(now),
            closed@.to_set() == old(self)@.expired(now),
            closed@.no_duplicates(),
    {
        let tokens = self.tokens();
        let ghost before = self@;
        let n: usize = tokens.len();
        let mut closed: Vec<usize> = Vec::new();
        let mut idx: usize = 0;
        while idx < n
            invariant
                idx <= n,
                n == tokens@.len(),
                tokens@.to_set() == before.clients.dom(),
                tokens@.no_duplicates(),
                self.wf(),
                self@.token_counter == before.token_counter,
                self@.idle_timeout == before.idle_timeout,
                self@.close_timeout == before.close_timeout,
                self@.clients.dom() == before.clients.dom(),
                forall|k: int|
                    0 <= k < idx ==> self@.clients[#[trigger] tokens@[k]]
                        == before.clients[tokens@[k]].after_tick(now),
                forall|k: int|
                    idx <= k < n ==> self@.clients[#[trigger] tokens@[k]]
                        == before.clients[tokens@[k]],
                closed@.no_duplicates(),
                forall|j: int|
                    0 <= j < closed@.len() ==> before.clients[#[trigger] closed@[j]].expired(now)
                        && exists|k: int| 0 <= k < idx && tokens@[k] == closed@[j],
                forall|k: int|
                    0 <= k < idx && before.clients[#[trigger] tokens@[k]].expired(now)
                        ==> closed@.contains(tokens@[k]),
            decreases n - idx,
        {
            let token: usize = tokens[idx];
            let ghost here = self@;
            let ghost so_far = closed@;
            assert(tokens@.to_set().contains(token));
            assert(here.clients.contains_key(token));
            let expired = self.check_timeout(token, now);
            assert(self@.clients.dom() =~= here.clients.dom());
            if expired {
                closed.push(token);
                assert forall|j: int| 0 <= j < closed@.len() implies before.clients[
                    #[trigger] closed@[j]
                ].expired(now) && exists|k: int| 0 <= k < idx + 1 && tokens@[k] == closed@[j] by {
                    if j < so_far.len() {
                        let k = choose|k: int| 0 <= k < idx && tokens@[k] == so_far[j];
                        assert(tokens@[k] == closed@[j]);
                    } else {
                        assert(tokens@[idx as int] == closed@[j]);
                    }
                }
                assert forall|k: int|
                    0 <= k < idx + 1 && before.clients[#[trigger] tokens@[k]].expired(
                        now,
                    ) implies closed@.contains(tokens@[k]) by {
                    if k < idx {
                        let j = choose|j: int| 0 <= j < so_far.len() && so_far[j] == tokens@[k];
                        assert(closed@[j] == tokens@[k]);
                    } else {
                        assert(closed@[so_far.len() as int] == tokens@[k]);
                    }
                }
            } else {
                assert forall|k: int|
                    0 <= k < idx + 1 && before.clients[#[trigger] tokens@[k]].expired(
                        now,
                    ) implies closed@.contains(tokens@[k]) by {
                    assert(k < idx);
                }
            }
            idx += 1;
        }
        proof {
            assert forall|t: usize| #[trigger]
                before.clients.contains_key(t) implies self@.clients[t]
                == before.clients[t].after_tick(now) by {
                assert(tokens@.to_set().contains(t));
                let k = choose|k: int| 0 <= k < tokens@.len() && tokens@[k] == t;
                assert(self@.clients[tokens@[k]] == before.clients[tokens@[k]].after_tick(now));
            }
            assert(self@.clients =~= before.after_sweep(now).clients);
            assert forall|t: usize| closed@.to_set().contains(t) <==> before.expired(now).contains(
                t,
            ) by {
                if closed@.to_set().contains(t) {
                    let j = choose|j: int| 0 <= j < closed@.len() && closed@[j] == t;
                    let k = choose|k: int| 0 <= k < idx && tokens@[k] == closed@[j];
                    assert(tokens@.to_set().contains(tokens@[k]));
                }
                if before.expired(now).contains(t) {
                    assert(tokens@.to_set().contains(t));
                    let k = choose|k: int| 0 <= k < tokens@.len() && tokens@[k] == t;
                    assert(closed@.contains(tokens@[k]));
                }
            }
            assert(closed@.to_set() =~= before.expired(now));
        }
        closed
    }
}

} // verus!
