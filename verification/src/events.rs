//! What reaches the server from its connections and its clock.

use vstd::prelude::*;

use crate::callback::on_update::{
    client_at, has_client, readable, verdict, Handled,
};
use crate::callback::restore_connection::clients_without;
use crate::client::{Client, ClientID, ClientModel, Connection, MpscData};
use crate::disconnect::{expired, marked, DISCONNECTED_PLAYER_TTL};
use crate::server::{Server, ServerModel};

verus! {

/// News from the listener.
pub enum Event {
    /// A client has connected.
    Add(Client),
    /// The server is to stop.
    Halt,
}

/// What the server wakes up for; nothing comes from a source that is closed.
pub enum Input {
    /// It is time to look for players who have been away for too long.
    Tick,
    Listener(Option<Event>),
    Clients(Option<MpscData>),
}

/// What is to be done next.
pub enum Flow {
    Continue,
    /// Go on; a request was answered.
    Answered(Handled),
    Stop,
}

/// The server after the state of a connection changed: its first client is
/// in that state.
pub open spec fn with_connection(
    s: ServerModel,
    client_id: ClientID,
    connection: Connection,
) -> ServerModel {
    if has_client(s.clients, client_id) {
        let i = client_at(s.clients, client_id);
        let c = ClientModel {
            connection,
            protocol: match connection {
                Connection::Authenticated(protocol) => protocol,
                _ => s.clients[i].protocol,
            },
            ..s.clients[i]
        };
        ServerModel { clients: s.clients.update(i, c), ..s }
    } else {
        s
    }
}

/// The server after a connection broke: its player has some time to come
/// back, its clients are forgotten.
pub open spec fn disconnected(s: ServerModel, client_id: ClientID, now_ms: u64) -> ServerModel {
    let m = marked(s, client_id, now_ms);
    ServerModel { clients: clients_without(m.clients, client_id), ..m }
}

/// Whether the server can take an input as it is.
pub open spec fn acceptable(s: ServerModel, input: Input, now_ms: u64) -> bool {
    match input {
        Input::Listener(Some(Event::Add(client))) => client.wf(),
        Input::Clients(Some(MpscData(id, Connection::Disconnected))) => now_ms <= u64::MAX
            - DISCONNECTED_PLAYER_TTL,
        Input::Clients(Some(MpscData(id, Connection::Updated(packet)))) => readable(
            s,
            packet@,
            id,
        ),
        _ => true,
    }
}

/// The server after an input, and what is to be done next.
pub open spec fn after_input(s: ServerModel, input: Input, now_ms: u64) -> (ServerModel, Flow) {
    match input {
        Input::Tick => (expired(s, now_ms), Flow::Continue),
        Input::Listener(Some(Event::Add(client))) => (
            ServerModel { clients: s.clients.push(client@), ..s },
            Flow::Continue,
        ),
        Input::Listener(_) => (s, Flow::Stop),
        Input::Clients(None) => (s, Flow::Stop),
        Input::Clients(Some(MpscData(id, Connection::Disconnected))) => (
            disconnected(s, id, now_ms),
            Flow::Continue,
        ),
        Input::Clients(Some(MpscData(id, Connection::Updated(packet)))) => {
            let (after, handled) = verdict(s, packet, id);
            (after, Flow::Answered(handled))
        },
        Input::Clients(Some(MpscData(id, connection))) => (
            with_connection(s, id, connection),
            Flow::Continue,
        ),
    }
}

impl Server {
    /// Takes in a new client.
    pub fn add_client(&mut self, client: Client)
        requires
            old(self).wf(),
            client.wf(),
        ensures
            final(self).wf(),
            final(self).clients@ == old(self).clients@.push(client),
            final(self)@ == (ServerModel {
                clients: old(self)@.clients.push(client@),
                ..old(self)@
            }),
    {
        let ghost before = self@.clients;
        let ghost clients = self.clients@;
        self.clients.push(client);
        proof {
            assert(self@.clients =~= before.push(client@));
            assert forall|k: int| 0 <= k < self.clients@.len() implies (
            #[trigger] self.clients@[k]).wf() by {
                if k < clients.len() {
                    assert(self.clients@[k] == clients[k]);
                }
            }
        }
    }

    /// Takes note of the new state of a connection.
    pub fn set_connection(&mut self, client_id: ClientID, connection: Connection)
        requires
            old(self).wf(),
        ensures
            final(self).wf(),
            final(self)@ == with_connection(old(self)@, client_id, connection),
    {
        let ghost s = self@;
        let ghost clients = self.clients@;
        if let Some(i) = self.find_client(client_id) {
            assert(clients[i as int].wf());
            let client = &mut self.clients[i];
            if let Connection::Authenticated(protocol) = connection {
                client.protocol = protocol;
            }
            client.connection = connection;
            proof {
                assert(self@.clients =~= with_connection(s, client_id, connection).clients);
                assert forall|k: int| 0 <= k < self.clients@.len() implies (
                #[trigger] self.clients@[k]).wf() by {
                    if k != i {
                        assert(self.clients@[k] == clients[k]);
                    }
                }
            }
        }
    }

    /// Does what an input at `now_ms` calls for.
    pub fn advance(&mut self, input: Input, now_ms: u64) -> (r: Flow)
        requires
            old(self).wf(),
            acceptable(old(self)@, input, now_ms),
        ensures
            final(self).wf(),
            (final(self)@, r) == after_input(old(self)@, input, now_ms),
    {
        match input {
            Input::Tick => {
                self.expire_disconnected_players(now_ms);
                Flow::Continue
            },
            Input::Listener(Some(Event::Add(client))) => {
                self.add_client(client);
                Flow::Continue
            },
            Input::Listener(_) => Flow::Stop,
            Input::Clients(None) => Flow::Stop,
            Input::Clients(Some(MpscData(id, Connection::Disconnected))) => {
                self.mark_player_disconnected(id, now_ms);
                self.remove_client(id);
                Flow::Continue
            },
            Input::Clients(Some(MpscData(id, Connection::Updated(packet)))) => Flow::Answered(
                self.on_update(id, packet),
            ),
            Input::Clients(Some(MpscData(id, connection))) => {
                self.set_connection(id, connection);
                Flow::Continue
            },
        }
    }
}

} // verus!
