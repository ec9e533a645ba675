//! Which request goes where, and what happens to its outcome.

use vstd::prelude::*;

use crate::client::{after_send, ClientID, ClientModel};
use crate::game::player_of;
use crate::games::{game_of, games_wf, has_game, lemma_game_of, lemma_game_step};
use crate::protocol::{packet_of, Action, Packet, PacketModel};
use crate::server::{told_all, Server, ServerModel};

use super::close_socket::{close_effect, CloseSocketError};
use super::create_object::{create_object_effect, create_object_refusal};
use super::delete_object::{
    delete_object_effect, delete_object_readable, delete_object_refusal,
};
use super::item_transfer::{item_transfer_effect, item_transfer_refusal};
use super::leave_world::{leave_world_effect, leave_world_refusal};
use super::restore_connection::{
    can_come_back, restore_answer, restore_effect, RestoreConnectionError,
};
use super::set_position::{set_position_effect, set_position_refusal};
use super::set_world::{must_leave, set_world_outcome, world_in};
use super::top_list_query::{top_list_bytes, TopListQueryError};
use super::update_object::{update_object_effect, update_object_refusal};
use super::{OnUpdateError, OnUpdateOk};

verus! {

/// Whether requests of an action are answered by this library.
pub open spec fn served_here(action: Action) -> bool {
    match action {
        Action::RESTORE_CONNECTION
        | Action::TOP_LIST_QUERY
        | Action::SET_POSITION
        | Action::CREATE_OBJECT
        | Action::SET_WORLD
        | Action::LEAVE_WORLD
        | Action::UPDATE_OBJECT
        | Action::DELETE_OBJECT
        | Action::ITEM_TRANSFER
        | Action::CLOSE_SOCKET => true,
        _ => false,
    }
}

/// Whether requests of an action are answered by the program around this
/// library.
pub open spec fn served_elsewhere(action: Action) -> bool {
    match action {
        Action::ATTACH_TO_GAME
        | Action::SERVER_TIME_QUERY
        | Action::GAMES_LIST_QUERY
        | Action::TOTAL_PLAYERS_DATA_QUERY
        | Action::REGISTER_NAME
        | Action::SET_PLAYER_DATA
        | Action::SET_GAME_DATA
        | Action::GET_GAME_DATA
        | Action::DIRECT_SENDING => true,
        _ => false,
    }
}

/// What a request comes to: the server after it, what is sent back, and why
/// it was turned down.
pub struct Answered {
    pub after: ServerModel,
    pub reply: Option<PacketModel>,
    pub error: Option<OnUpdateError>,
}

/// A request that was turned down and changed nothing.
pub open spec fn refused(s: ServerModel, error: OnUpdateError) -> Answered {
    Answered { after: s, reply: None, error: Some(error) }
}

/// A request that was met without a word to the sender.
pub open spec fn done(after: ServerModel) -> Answered {
    Answered { after, reply: None, error: None }
}

/// What a request that is answered here comes to.
pub open spec fn answered(s: ServerModel, packet: PacketModel, client_id: ClientID) -> Answered {
    let data = packet.data;
    match packet.action {
        Action::RESTORE_CONNECTION => if data.len() != 5 {
            refused(
                s,
                OnUpdateError::RestoreConnectionError(RestoreConnectionError::PayloadInvalid),
            )
        } else {
            let restored = can_come_back(s, data);
            Answered {
                after: if restored {
                    restore_effect(s, data, client_id)
                } else {
                    s
                },
                reply: Some(restore_answer(restored)),
                error: None,
            }
        },
        Action::TOP_LIST_QUERY => if data.len() == 0 {
            refused(s, OnUpdateError::TopListQueryError(TopListQueryError::ModeEmpty))
        } else {
            Answered {
                after: s,
                reply: Some(
                    packet_of(Action::TOP_LIST_RESPONSE, top_list_bytes(s.games, data[0])),
                ),
                error: None,
            }
        },
        Action::SET_POSITION => match set_position_refusal(s, data, client_id) {
            Some(e) => refused(s, OnUpdateError::SetPositionError(e)),
            None => done(set_position_effect(s, data, client_id)),
        },
        Action::CREATE_OBJECT => match create_object_refusal(s, data, client_id) {
            Some(e) => refused(s, OnUpdateError::CreateObjectError(e)),
            None => done(create_object_effect(s, data, client_id)),
        },
        Action::SET_WORLD => {
            let (after, error) = set_world_outcome(s, packet, client_id);
            Answered { after, reply: None, error }
        },
        Action::LEAVE_WORLD => match leave_world_refusal(s, client_id) {
            Some(e) => refused(s, OnUpdateError::LeaveWorldError(e)),
            None => done(leave_world_effect(s, client_id)),
        },
        Action::UPDATE_OBJECT => match update_object_refusal(s, data, client_id) {
            Some(e) => refused(s, OnUpdateError::UpdateObjectError(e)),
            None => done(update_object_effect(s, data, client_id)),
        },
        Action::DELETE_OBJECT => match delete_object_refusal(s, data, client_id) {
            Some(e) => refused(s, OnUpdateError::DeleteObjectError(e)),
            None => done(delete_object_effect(s, data, client_id)),
        },
        Action::ITEM_TRANSFER => match item_transfer_refusal(s, data, client_id) {
            Some(e) => refused(s, OnUpdateError::ItemTransferError(e)),
            None => done(item_transfer_effect(s, data, client_id)),
        },
        _ => if has_game(s.games, client_id) {
            done(close_effect(s, client_id))
        } else {
            refused(
                s,
                OnUpdateError::CloseSocketError(CloseSocketError::PlayerNotFound(client_id)),
            )
        },
    }
}

/// Whether a packet is long enough for what the server reads of it.
pub open spec fn readable(s: ServerModel, packet: PacketModel, client_id: ClientID) -> bool {
    &&& packet.action == Action::SET_WORLD ==> packet.data.len() >= 3
    &&& packet.action == Action::DELETE_OBJECT ==> delete_object_readable(
        s,
        packet.data,
        client_id,
    )
}

/// Whether the first client of the connection `id` stands at `i`.
pub open spec fn is_first_client(clients: Seq<ClientModel>, id: ClientID, i: int) -> bool {
    &&& 0 <= i < clients.len()
    &&& clients[i].id == id
    &&& forall|j: int| 0 <= j < i ==> (#[trigger] clients[j]).id != id
}

/// Whether the connection `id` has a client.
pub open spec fn has_client(clients: Seq<ClientModel>, id: ClientID) -> bool {
    exists|i: int| is_first_client(clients, id, i)
}

/// Where the first client of the connection `id` stands.
pub open spec fn client_at(clients: Seq<ClientModel>, id: ClientID) -> int {
    choose|i: int| is_first_client(clients, id, i)
}

/// The server after a packet was sent to the first client of a connection, if
/// it has one.
pub open spec fn replied(s: ServerModel, client_id: ClientID, packet: PacketModel) -> ServerModel {
    if has_client(s.clients, client_id) {
        let i = client_at(s.clients, client_id);
        ServerModel { clients: s.clients.update(i, after_send(s.clients[i], packet)), ..s }
    } else {
        s
    }
}

/// What became of a request.
pub enum Handled {
    /// It was met without an answer.
    Done,
    /// It was met, and the sender was answered.
    Replied,
    /// It was met, and all clients were told.
    Announced,
    /// It was met, but there is nobody to answer.
    Unanswered,
    /// It was turned down.
    Failed(OnUpdateError),
    /// It is for the program around this library.
    Elsewhere(Packet),
}

/// The server after a request, and what became of the request.
pub open spec fn verdict(s: ServerModel, packet: Packet, client_id: ClientID) -> (
    ServerModel,
    Handled,
) {
    if served_here(packet.action) {
        let a = answered(s, packet@, client_id);
        match (a.error, a.reply) {
            (Some(e), _) => (a.after, Handled::Failed(e)),
            (None, None) => (a.after, Handled::Done),
            (None, Some(p)) => (
                replied(a.after, client_id, p),
                if has_client(a.after.clients, client_id) {
                    Handled::Replied
                } else {
                    Handled::Unanswered
                },
            ),
        }
    } else if served_elsewhere(packet.action) {
        (s, Handled::Elsewhere(packet))
    } else {
        (s, Handled::Failed(OnUpdateError::NotImplementedAction(packet)))
    }
}

/// The server after what is left to do after a request, and what became of the
/// request.
pub open spec fn delivered(s: ServerModel, client_id: ClientID, outcome: OnUpdateOk) -> (
    ServerModel,
    Handled,
) {
    match outcome {
        OnUpdateOk::Response(p) => (
            replied(s, client_id, p@),
            if has_client(s.clients, client_id) {
                Handled::Replied
            } else {
                Handled::Unanswered
            },
        ),
        OnUpdateOk::Broadcast(p) => (told_all(s, p@), Handled::Announced),
        OnUpdateOk::Complete => (s, Handled::Done),
    }
}

/// The first client of a connection is where it is found.
pub proof fn lemma_first_client(clients: Seq<ClientModel>, id: ClientID, i: int)
    requires
        is_first_client(clients, id, i),
    ensures
        has_client(clients, id),
        client_at(clients, id) == i,
{
    let k = client_at(clients, id);
    assert(is_first_client(clients, id, k));
    if k < i {
        assert(clients[k].id == id);
    } else if i < k {
        assert(clients[i].id == id);
    }
}

impl Server {
    /// Where the first client of the connection `id` stands.
    pub fn find_client(&self, id: ClientID) -> (r: Option<usize>)
        ensures
            match r {
                Some(i) => is_first_client(self@.clients, id, i as int) && has_client(
                    self@.clients,
                    id,
                ) && i == client_at(self@.clients, id),
                None => !has_client(self@.clients, id),
            },
    {
        let mut i: usize = 0;
        while i < self.clients.len()
            invariant
                0 <= i <= self.clients@.len(),
                forall|j: int| 0 <= j < i ==> (#[trigger] self@.clients[j]).id != id,
            decreases self.clients@.len() - i,
        {
            assert(self@.clients[i as int] == self.clients@[i as int]@);
            if self.clients[i].id == id {
                proof {
                    lemma_first_client(self@.clients, id, i as int);
                }
                return Some(i);
            }
            i = i + 1;
        }
        None
    }

    /// Sends `packet` to the first client of the connection `client_id`;
    /// whether there is one is the result.
    pub fn reply(&mut self, client_id: ClientID, packet: &Packet) -> (r: bool)
        requires
            old(self).wf(),
        ensures
            final(self).wf(),
            final(self)@ == replied(old(self)@, client_id, packet@),
            r == has_client(old(self)@.clients, client_id),
    {
        let ghost s = self@;
        match self.find_client(client_id) {
            Some(i) => {
                let ghost clients = self.clients@;
                assert(clients[i as int].wf());
                let client = &mut self.clients[i];
                client.send(packet);
                proof {
                    assert(self@.clients =~= s.clients.update(
                        i as int,
                        after_send(s.clients[i as int], packet@),
                    ));
                    assert forall|k: int| 0 <= k < self.clients@.len() implies (
                    #[trigger] self.clients@[k]).wf() by {
                        if k != i {
                            assert(self.clients@[k] == clients[k]);
                        }
                    }
                }
                true
            },
            None => false,
        }
    }

    /// Does what is left to do after a request.
    pub fn deliver(&mut self, client_id: ClientID, outcome: OnUpdateOk) -> (r: Handled)
        requires
            old(self).wf(),
        ensures
            final(self).wf(),
            match outcome {
                OnUpdateOk::Response(p) => {
                    &&& final(self)@ == replied(old(self)@, client_id, p@)
                    &&& r == if has_client(old(self)@.clients, client_id) {
                        Handled::Replied
                    } else {
                        Handled::Unanswered
                    }
                },
                OnUpdateOk::Broadcast(p) => {
                    &&& final(self)@ == told_all(old(self)@, p@)
                    &&& r == Handled::Announced
                },
                OnUpdateOk::Complete => *final(self) == *old(self) && r == Handled::Done,
            },
            (final(self)@, r) == delivered(old(self)@, client_id, outcome),
    {
        match outcome {
            OnUpdateOk::Response(p) => {
                if self.reply(client_id, &p) {
                    Handled::Replied
                } else {
                    Handled::Unanswered
                }
            },
            OnUpdateOk::Broadcast(p) => {
                self.notify_all(client_id, &p);
                Handled::Announced
            },
            OnUpdateOk::Complete => Handled::Done,
        }
    }

    /// Whether a packet is long enough for what the server reads of it.
    pub fn can_read(&self, client_id: ClientID, packet: &Packet) -> (r: bool)
        requires
            self.wf(),
        ensures
            r == readable(self@, packet@, client_id),
    {
        match packet.action {
            Action::SET_WORLD => packet.data.len() >= 3,
            Action::DELETE_OBJECT => self.can_read_delete(packet, client_id),
            _ => true,
        }
    }

    /// Answers a request of the client `client_id`.
    pub fn on_update(&mut self, client_id: ClientID, packet: Packet) -> (r: Handled)
        requires
            old(self).wf(),
            readable(old(self)@, packet@, client_id),
        ensures
            final(self).wf(),
            (final(self)@, r) == verdict(old(self)@, packet, client_id),
    {
        let result = match packet.action {
            Action::RESTORE_CONNECTION => self.restore_connection(&packet, client_id),
            Action::TOP_LIST_QUERY => self.top_list_query(&packet, client_id),
            Action::SET_POSITION => self.set_position(&packet, client_id),
            Action::CREATE_OBJECT => self.create_object(&packet, client_id),
            Action::SET_WORLD => self.set_world(&packet, client_id),
            Action::LEAVE_WORLD => self.leave_world(&packet, client_id),
            Action::UPDATE_OBJECT => self.update_object(&packet, client_id),
            Action::DELETE_OBJECT => self.delete_object(&packet, client_id),
            Action::ITEM_TRANSFER => self.item_transfer(&packet, client_id),
            Action::CLOSE_SOCKET => self.close_socket(&packet, client_id),
            Action::ATTACH_TO_GAME
            | Action::SERVER_TIME_QUERY
            | Action::GAMES_LIST_QUERY
            | Action::TOTAL_PLAYERS_DATA_QUERY
            | Action::REGISTER_NAME
            | Action::SET_PLAYER_DATA
            | Action::SET_GAME_DATA
            | Action::GET_GAME_DATA
            | Action::DIRECT_SENDING => {
                return Handled::Elsewhere(packet);
            },
            _ => Err(OnUpdateError::NotImplementedAction(packet)),
        };
        match result {
            Ok(outcome) => self.deliver(client_id, outcome),
            Err(err) => Handled::Failed(err),
        }
    }
}

/// A request that is turned down changes nothing, with one exception: a player
/// who asks to enter a world has left the one it was in, and a world that was
/// new to its game stays.
pub proof fn lemma_refused_request_changes_nothing(
    s: ServerModel,
    packet: PacketModel,
    client_id: ClientID,
)
    requires
        games_wf(s.games),
        served_here(packet.action),
        answered(s, packet, client_id).error is Some,
        packet.action == Action::SET_WORLD && has_game(s.games, client_id) ==> {
            &&& !must_leave(s, client_id, world_in(packet.data).id)
            &&& player_of(game_of(s.games, client_id), client_id).bind is Some
        },
    ensures
        answered(s, packet, client_id).after == s,
        answered(s, packet, client_id).reply is None,
{
    if packet.action == Action::SET_WORLD && has_game(s.games, client_id) {
        let g = game_of(s.games, client_id);
        lemma_game_of(s.games, client_id);
        lemma_game_step(s.games, client_id, g);
    }
}

} // verus!
