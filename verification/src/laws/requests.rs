//! Which request comes to what.

use vstd::prelude::*;

use crate::callback::close_socket::{close_effect, CloseSocketError};
use crate::callback::create_object::{create_object_effect, create_object_refusal};
use crate::callback::delete_object::{
    delete_object_effect, delete_object_readable, delete_object_refusal,
};
use crate::callback::item_transfer::{item_transfer_effect, item_transfer_refusal};
use crate::callback::leave_world::{leave_world_effect, leave_world_refusal};
use crate::callback::on_update::{
    delivered, has_client, is_first_client, readable, replied, verdict, Handled,
};
use crate::callback::restore_connection::{
    can_come_back, restore_answer, restore_effect, RestoreConnectionError,
};
use crate::callback::set_position::{set_position_effect, set_position_refusal};
use crate::callback::set_world::set_world_outcome;
use crate::callback::top_list_query::{top_list_bytes, TopListQueryError};
use crate::callback::update_object::{update_object_effect, update_object_refusal};
use crate::callback::view::{completion_logged, logged, Logged};
use crate::callback::{OnUpdateError, OnUpdateOk};
use crate::client::{ClientID, ClientModel};
use crate::protocol::{answer_of, code_of, packet_of, Action, Packet, PacketModel};
use crate::server::{ServerConfig, ServerModel};

use super::hearing::{heard, lemma_all_hear, lemma_who_is_meant};
use super::objects::plays_somewhere;

verus! {

/// Whether some client has the connection `id`.
pub open spec fn connected(clients: Seq<ClientModel>, id: ClientID) -> bool {
    exists|i: int| 0 <= i < clients.len() && (#[trigger] clients[i]).id == id
}

/// The server, and what became of a request, once its sender was sent `answer`.
pub open spec fn with_answer(s: ServerModel, client_id: ClientID, answer: PacketModel) -> (
    ServerModel,
    Handled,
) {
    (
        replied(s, client_id, answer),
        if connected(s.clients, client_id) {
            Handled::Replied
        } else {
            Handled::Unanswered
        },
    )
}

/// Each request does its own work: one that is turned down fails for its own
/// reason and, but for a player who has left its world on the way to another,
/// changes nothing; one that asks for something is answered.
pub proof fn lemma_requests(s: ServerModel, packet: Packet, client_id: ClientID)
    ensures
        ({
            let data = packet.data@;
            let r = verdict(s, packet, client_id);
            match packet.action {
                Action::CREATE_OBJECT => r == match create_object_refusal(s, data, client_id) {
                    Some(e) => (s, Handled::Failed(OnUpdateError::CreateObjectError(e))),
                    None => (create_object_effect(s, data, client_id), Handled::Done),
                },
                Action::UPDATE_OBJECT => r == match update_object_refusal(s, data, client_id) {
                    Some(e) => (s, Handled::Failed(OnUpdateError::UpdateObjectError(e))),
                    None => (update_object_effect(s, data, client_id), Handled::Done),
                },
                Action::DELETE_OBJECT => r == match delete_object_refusal(s, data, client_id) {
                    Some(e) => (s, Handled::Failed(OnUpdateError::DeleteObjectError(e))),
                    None => (delete_object_effect(s, data, client_id), Handled::Done),
                },
                Action::ITEM_TRANSFER => r == match item_transfer_refusal(s, data, client_id) {
                    Some(e) => (s, Handled::Failed(OnUpdateError::ItemTransferError(e))),
                    None => (item_transfer_effect(s, data, client_id), Handled::Done),
                },
                Action::SET_POSITION => r == match set_position_refusal(s, data, client_id) {
                    Some(e) => (s, Handled::Failed(OnUpdateError::SetPositionError(e))),
                    None => (set_position_effect(s, data, client_id), Handled::Done),
                },
                Action::LEAVE_WORLD => r == match leave_world_refusal(s, client_id) {
                    Some(e) => (s, Handled::Failed(OnUpdateError::LeaveWorldError(e))),
                    None => (leave_world_effect(s, client_id), Handled::Done),
                },
                Action::SET_WORLD => r.0 == set_world_outcome(s, packet@, client_id).0 && r.1
                    == match set_world_outcome(s, packet@, client_id).1 {
                    Some(e) => Handled::Failed(e),
                    None => Handled::Done,
                },
                Action::CLOSE_SOCKET => r == if plays_somewhere(s, client_id) {
                    (close_effect(s, client_id), Handled::Done)
                } else {
                    (
                        s,
                        Handled::Failed(
                            OnUpdateError::CloseSocketError(
                                CloseSocketError::PlayerNotFound(client_id),
                            ),
                        ),
                    )
                },
                Action::TOP_LIST_QUERY => r == if data.len() == 0 {
                    (
                        s,
                        Handled::Failed(
                            OnUpdateError::TopListQueryError(TopListQueryError::ModeEmpty),
                        ),
                    )
                } else {
                    with_answer(
                        s,
                        client_id,
                        packet_of(Action::TOP_LIST_RESPONSE, top_list_bytes(s.games, data[0])),
                    )
                },
                Action::RESTORE_CONNECTION => r == if data.len() != 5 {
                    (
                        s,
                        Handled::Failed(
                            OnUpdateError::RestoreConnectionError(
                                RestoreConnectionError::PayloadInvalid,
                            ),
                        ),
                    )
                } else if can_come_back(s, data) {
                    with_answer(restore_effect(s, data, client_id), client_id, restore_answer(true))
                } else {
                    with_answer(s, client_id, restore_answer(false))
                },
                Action::ATTACH_TO_GAME
                | Action::SERVER_TIME_QUERY
                | Action::GAMES_LIST_QUERY
                | Action::TOTAL_PLAYERS_DATA_QUERY
                | Action::REGISTER_NAME
                | Action::SET_PLAYER_DATA
                | Action::SET_GAME_DATA
                | Action::GET_GAME_DATA
                | Action::DIRECT_SENDING => r == (s, Handled::Elsewhere(packet)),
                _ => r == (s, Handled::Failed(OnUpdateError::NotImplementedAction(packet))),
            }
        }),
{
    lemma_who_is_meant(s, client_id);
    lemma_connected(s.clients, client_id);
    lemma_connected(restore_effect(s, packet.data@, client_id).clients, client_id);
}

/// A response goes to its client, a broadcast to all clients, and where nothing
/// is left to do nothing is done.
pub proof fn lemma_delivery(s: ServerModel, client_id: ClientID, outcome: OnUpdateOk)
    ensures
        ({
            let (after, handled) = delivered(s, client_id, outcome);
            match outcome {
                OnUpdateOk::Response(p) => (after, handled) == with_answer(s, client_id, p@),
                OnUpdateOk::Broadcast(p) => {
                    &&& after.games == s.games && after.conf == s.conf
                    &&& heard(s.clients, after.clients, |id: ClientID| true, seq![p@])
                    &&& handled is Announced
                },
                OnUpdateOk::Complete => after == s && handled is Done,
            }
        }),
{
    lemma_connected(s.clients, client_id);
    if let OnUpdateOk::Broadcast(p) = outcome {
        lemma_all_hear(s, p@);
    }
}

proof fn lemma_connected(clients: Seq<ClientModel>, id: ClientID)
    ensures
        connected(clients, id) == has_client(clients, id),
{
    if connected(clients, id) {
        let i = choose|i: int| 0 <= i < clients.len() && (#[trigger] clients[i]).id == id;
        lemma_first_of_them(clients, id, i);
    }
    if has_client(clients, id) {
        let i = choose|i: int| is_first_client(clients, id, i);
        assert(clients[i].id == id);
    }
}

proof fn lemma_first_of_them(clients: Seq<ClientModel>, id: ClientID, i: int)
    requires
        0 <= i < clients.len(),
        clients[i].id == id,
    ensures
        has_client(clients, id),
    decreases i,
{
    if forall|j: int| 0 <= j < i ==> (#[trigger] clients[j]).id != id {
        assert(is_first_client(clients, id, i));
    } else {
        let j = choose|j: int| 0 <= j < i && (#[trigger] clients[j]).id == id;
        lemma_first_of_them(clients, id, j);
    }
}

/// Only two requests can be too short to be read: one to enter a world needs
/// three bytes, and a deletion what is read of it.
pub proof fn lemma_what_can_be_read(s: ServerModel, packet: PacketModel, client_id: ClientID)
    ensures
        readable(s, packet, client_id) == match packet.action {
            Action::SET_WORLD => packet.data.len() >= 3,
            Action::DELETE_OBJECT => delete_object_readable(s, packet.data, client_id),
            _ => true,
        },
{
}

/// That a request was met without an answer is logged but for those that come
/// in all the time: the creation, update and deletion of objects.
pub proof fn lemma_what_is_said_of_the_met(action: Action)
    ensures
        completion_logged(action) <==> !(action is CREATE_OBJECT) && !(action is UPDATE_OBJECT)
            && !(action is DELETE_OBJECT),
{
}

/// The byte of an answer is that of its request with one more bit.
pub proof fn lemma_answers_mirror_requests(action: Action)
    requires
        answer_of(action) is Some,
    ensures
        code_of(answer_of(action)->0) == code_of(action) + 0x40,
        0x80 <= code_of(action) < 0xC0,
{
}

/// What comes in all the time is only traced; requests for the time and for the
/// list of games stay out of the log where the settings say so, and no setting
/// keeps anything else out.
pub proof fn lemma_what_is_logged(action: Action, conf: ServerConfig)
    ensures
        ({
            let time = action == Action::SERVER_TIME || action == Action::SERVER_TIME_QUERY
                || action == Action::SERVER_TIME_RESPONSE;
            let objects = action == Action::CREATE_OBJECT || action == Action::UPDATE_OBJECT
                || action == Action::DELETE_OBJECT || action == Action::ITEM_TRANSFER || action
                == Action::ITEM_STATE || action == Action::ITEM_REMOVED;
            let games = action == Action::GAMES_LIST_QUERY;
            &&& logged(action, conf) == Logged::Nothing <==> {
                ||| time && conf.supress_log_server_time
                ||| games && conf.supress_log_games_list_query
            }
            &&& logged(action, conf) == Logged::Trace <==> objects || time
                && !conf.supress_log_server_time
            &&& logged(action, conf) == Logged::Debug <==> games
                && !conf.supress_log_games_list_query
        }),
{
}

} // verus!
