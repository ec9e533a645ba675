//! `DELETE_OBJECT`: a player takes an object out of the game.

use vstd::prelude::*;

use crate::bytes::{i32_bytes, le_i32, push_i32, push_tail, read_i32};
use crate::client::ClientID;
use crate::game::{
    game_wf, has_player, lemma_player_of, lemma_vanjects_remove, player_of, Game, GameModel,
};
use crate::games::{game_of, has_game, lemma_game_of, lemma_game_step, with_game};
use crate::protocol::{packet_of, Action, Packet, PacketModel};
use crate::server::{told_game, told_world, Server, ServerModel};
use crate::vanject::{get_world, is_non_global_vanject, non_global_id, world_of};

use super::item_transfer::{
    is_item, is_item_vanject, item_removed_packet, removed_packet, ITEM_REMOVED_REASON_DELETE,
};
use super::{OnUpdateError, OnUpdateOk};

verus! {

broadcast use vstd::std_specs::hash::group_hash_axioms;

/// Why a deletion was turned down.
#[derive(Clone, Copy, Debug, PartialEq, Eq, Structural)]
pub enum DeleteObjectError {
    /// The client is in no game.
    PlayerNotFound(ClientID),
    /// The player has no number in its game.
    PlayerNotBind(ClientID),
    /// The object belongs to another player: id, the player's number.
    NotOwner(i32, u8),
    /// The deletion is marked as half of a transfer, for which there is
    /// `ITEM_TRANSFER`.
    LegacyItemTransferDelete(i32),
}

/// Whether a deletion is marked as half of a transfer.
pub open spec fn transfer_marked(data: Seq<u8>) -> bool {
    data.len() > 8 && data[8] == 1
}

/// Why a game turns down a deletion by the player over `client_id`. Only the
/// owner deletes an object.
pub open spec fn delete_refusal(g: GameModel, client_id: ClientID, data: Seq<u8>) -> Option<
    DeleteObjectError,
> {
    let p = player_of(g, client_id);
    let id = le_i32(data, 0);
    if p.bind is None {
        Some(DeleteObjectError::PlayerNotBind(client_id))
    } else if g.vanjects.contains_key(id) && g.vanjects[id].player_bind_id != p.bind->0.id {
        Some(DeleteObjectError::NotOwner(id, p.bind->0.id))
    } else if g.vanjects.contains_key(id) && is_item(g.vanjects[id]) && transfer_marked(data) {
        Some(DeleteObjectError::LegacyItemTransferDelete(id))
    } else {
        None
    }
}

/// What the others are told of a deletion: the end of an item, or else the
/// deletion itself, with the player's number put in.
pub open spec fn delete_answer(g: GameModel, client_id: ClientID, data: Seq<u8>) -> PacketModel {
    let id = le_i32(data, 0);
    if g.vanjects.contains_key(id) && is_item(g.vanjects[id]) {
        removed_packet(g.vanjects[id], ITEM_REMOVED_REASON_DELETE)
    } else {
        packet_of(
            Action::DELETE_OBJECT,
            i32_bytes(id) + seq![player_of(g, client_id).bind->0.id] + data.skip(4),
        )
    }
}

/// The game after a deletion.
pub open spec fn game_without(g: GameModel, data: Seq<u8>) -> GameModel {
    GameModel { vanjects: g.vanjects.remove(le_i32(data, 0)), ..g }
}

/// Whether a payload is long enough for what a game reads of it: an id, and
/// the time after it where the deletion is passed on as it is.
pub open spec fn delete_readable(g: GameModel, client_id: ClientID, data: Seq<u8>) -> bool {
    let id = le_i32(data, 0);
    ||| data.len() >= 8
    ||| data.len() >= 4 && (delete_refusal(g, client_id, data) is Some || (
    g.vanjects.contains_key(id) && is_item(g.vanjects[id])))
}

impl Game {
    /// Deletes an object, unless something speaks against it; the result is
    /// what the other players are told.
    pub fn delete_object(&mut self, client_id: ClientID, data: &Vec<u8>) -> (r: Result<
        Packet,
        DeleteObjectError,
    >)
        requires
            game_wf(old(self)@),
            has_player(old(self)@.players, client_id),
            delete_readable(old(self)@, client_id, data@),
        ensures
            game_wf(final(self)@),
            match delete_refusal(old(self)@, client_id, data@) {
                Some(e) => r == Err::<Packet, DeleteObjectError>(e) && final(self)@ == old(self)@,
                None => {
                    &&& final(self)@ == game_without(old(self)@, data@)
                    &&& r is Ok
                    &&& r->Ok_0@ == delete_answer(old(self)@, client_id, data@)
                },
            },
    {
        let ghost g = self@;
        proof {
            lemma_player_of(g.players, client_id);
        }
        let id: i32 = read_i32(data, 0);
        let bind = match self.get_player(client_id) {
            Some(player) => player.bind,
            None => None,
        };
        let player_bind_id: u8 = match bind {
            Some(bind) => bind.id(),
            None => {
                return Err(DeleteObjectError::PlayerNotBind(client_id));
            },
        };
        let marked: bool = data.len() > 8 && data[8] == 1;
        let item_answer: Option<Packet> = match self.vanjects.get(&id) {
            Some(vanject) => {
                assert(g.vanjects.contains_key(id));
                assert(g.vanjects[id] == vanject@);
                if vanject.player_bind_id != player_bind_id {
                    return Err(DeleteObjectError::NotOwner(id, player_bind_id));
                }
                if is_item_vanject(vanject) {
                    if marked {
                        return Err(DeleteObjectError::LegacyItemTransferDelete(id));
                    }
                    Some(item_removed_packet(vanject, ITEM_REMOVED_REASON_DELETE))
                } else {
                    None
                }
            },
            None => None,
        };
        let answer = match item_answer {
            Some(answer) => answer,
            None => {
                let mut out: Vec<u8> = Vec::new();
                push_i32(&mut out, id);
                out.push(player_bind_id);
                push_tail(&mut out, data, 4);
                assert(out@ =~= i32_bytes(id) + seq![player_bind_id] + data@.skip(4));
                Packet::new(Action::DELETE_OBJECT, &out)
            },
        };
        let ghost objects = self.vanjects@;
        self.vanjects.remove(&id);
        proof {
            lemma_vanjects_remove(objects, id);
            assert(self@ =~= game_without(g, data@));
        }
        Ok(answer)
    }

    /// Whether a payload is long enough to ask for a deletion with it.
    pub fn can_read_delete(&self, client_id: ClientID, data: &Vec<u8>) -> (r: bool)
        requires
            game_wf(self@),
            has_player(self@.players, client_id),
        ensures
            r == delete_readable(self@, client_id, data@),
    {
        if data.len() >= 8 {
            return true;
        }
        if data.len() < 4 {
            return false;
        }
        proof {
            lemma_player_of(self@.players, client_id);
        }
        let id: i32 = read_i32(data, 0);
        let bind = match self.get_player(client_id) {
            Some(player) => player.bind,
            None => None,
        };
        match bind {
            None => true,
            Some(bind) => match self.vanjects.get(&id) {
                Some(vanject) => {
                    assert(self@.vanjects.contains_key(id));
                    assert(self@.vanjects[id] == vanject@);
                    vanject.player_bind_id != bind.id || is_item_vanject(vanject)
                },
                None => false,
            },
        }
    }
}

/// Why the server turns down a deletion.
pub open spec fn delete_object_refusal(
    s: ServerModel,
    data: Seq<u8>,
    client_id: ClientID,
) -> Option<DeleteObjectError> {
    if !has_game(s.games, client_id) {
        Some(DeleteObjectError::PlayerNotFound(client_id))
    } else {
        delete_refusal(game_of(s.games, client_id), client_id, data)
    }
}

/// Whether a payload is long enough for what the server reads of it.
pub open spec fn delete_object_readable(
    s: ServerModel,
    data: Seq<u8>,
    client_id: ClientID,
) -> bool {
    if has_game(s.games, client_id) {
        delete_readable(game_of(s.games, client_id), client_id, data)
    } else {
        data.len() >= 4
    }
}

/// The server after a deletion: the object is gone, and the others in its
/// world are told, or all others in the game if it belongs to no world.
pub open spec fn delete_object_effect(
    s: ServerModel,
    data: Seq<u8>,
    client_id: ClientID,
) -> ServerModel {
    let id = le_i32(data, 0);
    let g = game_of(s.games, client_id);
    let after = ServerModel { games: with_game(s.games, client_id, game_without(g, data)), ..s };
    let answer = delete_answer(g, client_id, data);
    if non_global_id(id) {
        told_world(after, client_id, world_of(id) as u8, answer, false)
    } else {
        told_game(after, client_id, answer)
    }
}

impl Server {
    /// Answers `DELETE_OBJECT`.
    pub fn delete_object(&mut self, packet: &Packet, client_id: ClientID) -> (r: Result<
        OnUpdateOk,
        OnUpdateError,
    >)
        requires
            old(self).wf(),
            delete_object_readable(old(self)@, packet.data@, client_id),
        ensures
            final(self).wf(),
            match delete_object_refusal(old(self)@, packet.data@, client_id) {
                Some(e) => {
                    &&& r == Err::<OnUpdateOk, OnUpdateError>(OnUpdateError::DeleteObjectError(e))
                    &&& final(self)@ == old(self)@
                },
                None => {
                    &&& r == Ok::<OnUpdateOk, OnUpdateError>(OnUpdateOk::Complete)
                    &&& final(self)@ == delete_object_effect(old(self)@, packet.data@, client_id)
                },
            },
    {
        let id: i32 = read_i32(&packet.data, 0);
        let ghost s = self@;
        let ghost data = packet.data@;
        proof {
            if has_game(s.games, client_id) {
                lemma_game_of(s.games, client_id);
            }
        }
        let outcome = match self.get_mut_game_by_clientid(client_id) {
            Some(game) => game.delete_object(client_id, &packet.data),
            None => Err(DeleteObjectError::PlayerNotFound(client_id)),
        };
        proof {
            if has_game(s.games, client_id) {
                let g = game_of(s.games, client_id);
                if delete_refusal(g, client_id, data) is None {
                    lemma_game_step(s.games, client_id, game_without(g, data));
                } else {
                    lemma_game_step(s.games, client_id, g);
                }
            }
        }
        match outcome {
            Ok(answer) => {
                if is_non_global_vanject(id) {
                    self.notify_world(client_id, get_world(id) as u8, &answer, false);
                } else {
                    self.notify_game(client_id, &answer);
                }
                Ok(OnUpdateOk::Complete)
            },
            Err(err) => Err(OnUpdateError::DeleteObjectError(err)),
        }
    }

    /// Whether a packet is long enough to ask for a deletion with it.
    pub fn can_read_delete(&self, packet: &Packet, client_id: ClientID) -> (r: bool)
        requires
            self.wf(),
        ensures
            r == delete_object_readable(self@, packet.data@, client_id),
    {
        proof {
            if has_game(self@.games, client_id) {
                lemma_game_of(self@.games, client_id);
            }
        }
        match self.get_game_by_clientid(client_id) {
            Some(game) => game.can_read_delete(client_id, &packet.data),
            None => packet.data.len() >= 4,
        }
    }
}

/// A deletion takes one object of its sender's, or none, out of the game.
pub proof fn lemma_delete_takes_own_object(g: GameModel, client_id: ClientID, data: Seq<u8>)
    requires
        delete_refusal(g, client_id, data) is None,
    ensures
        ({
            let id = le_i32(data, 0);
            let after = game_without(g, data);
            &&& g.vanjects.contains_key(id) ==> g.vanjects[id].player_bind_id == player_of(
                g,
                client_id,
            ).bind->0.id
            &&& !g.vanjects.contains_key(id) ==> after.vanjects == g.vanjects
            &&& !after.vanjects.contains_key(id)
            &&& forall|other: i32|
                other != id ==> #[trigger] after.vanjects.contains_key(other)
                    == g.vanjects.contains_key(other) && after.vanjects[other] == g.vanjects[other]
        }),
{
    let id = le_i32(data, 0);
    if !g.vanjects.contains_key(id) {
        assert(game_without(g, data).vanjects =~= g.vanjects);
    }
}

} // verus!
