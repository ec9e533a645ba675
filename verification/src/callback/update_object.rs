//! `UPDATE_OBJECT`: an object has moved or changed.

use vstd::prelude::*;

use crate::bytes::{le_i32, read_i32};
use crate::client::ClientID;
use crate::game::{
    game_wf, has_player, lemma_player_of, lemma_vanjects_insert, player_of, Game, GameModel,
};
use crate::games::{game_of, has_game, lemma_game_of, lemma_game_step, with_game};
use crate::protocol::{packet_of, Action, Packet};
use crate::server::{told_game, told_world, Server, ServerModel};
use crate::vanject::{
    get_world, is_non_global_vanject, non_global_id, object_bytes, static_id, updated_object,
    world_of, VanjectError, VanjectModel, UPDATE_HEADER_SIZE,
};

use super::{OnUpdateError, OnUpdateOk};

verus! {

broadcast use vstd::std_specs::hash::group_hash_axioms;

/// Why an update was turned down.
#[derive(Clone, Copy, Debug, PartialEq, Eq, Structural)]
pub enum UpdateObjectError {
    /// The payload has no room for an id.
    SliceTooSmall,
    /// The update cannot be read.
    SliceToVanjectParse(VanjectError),
    /// The client is in no game.
    PlayerNotFound(ClientID),
    /// There is no such object.
    VanjectNotFound(i32),
    /// The player has no number in its game.
    PlayerNotBind(ClientID),
    /// The player is out of all worlds.
    PlayerWorldEmpty(ClientID),
    /// The object belongs to another world than the player is in: id, the
    /// world of the object, the world of the player.
    WrongWorld(i32, u8, u8),
    /// The object belongs to another player: id, the player's number.
    NotOwner(i32, u8),
}

/// Why a game turns down an update by the player over `client_id`. What is in
/// a world is updated from within that world, and, unless it is fixed there,
/// only by its owner.
pub open spec fn update_refusal(g: GameModel, client_id: ClientID, data: Seq<u8>) -> Option<
    UpdateObjectError,
> {
    let p = player_of(g, client_id);
    let id = le_i32(data, 0);
    if p.bind is None {
        Some(UpdateObjectError::PlayerNotBind(client_id))
    } else if !g.vanjects.contains_key(id) {
        Some(UpdateObjectError::VanjectNotFound(id))
    } else if non_global_id(id) && p.world is None {
        Some(UpdateObjectError::PlayerWorldEmpty(client_id))
    } else if non_global_id(id) && p.world->0.id != world_of(id) {
        Some(UpdateObjectError::WrongWorld(id, world_of(id) as u8, p.world->0.id))
    } else if non_global_id(id) && !static_id(id) && g.vanjects[id].player_bind_id != p.bind->0.id {
        Some(UpdateObjectError::NotOwner(id, p.bind->0.id))
    } else if data.len() < UPDATE_HEADER_SIZE {
        Some(
            UpdateObjectError::SliceToVanjectParse(
                VanjectError::SliceTooSmall(data.len() as usize),
            ),
        )
    } else {
        None
    }
}

/// The updated object, which belongs to whoever updated it.
pub open spec fn update_result(g: GameModel, client_id: ClientID, data: Seq<u8>) -> VanjectModel {
    VanjectModel {
        player_bind_id: player_of(g, client_id).bind->0.id,
        ..updated_object(g.vanjects[le_i32(data, 0)], data)
    }
}

/// The game after an update.
pub open spec fn game_updated(g: GameModel, client_id: ClientID, data: Seq<u8>) -> GameModel {
    GameModel {
        vanjects: g.vanjects.insert(le_i32(data, 0), update_result(g, client_id, data)),
        ..g
    }
}

impl Game {
    /// Updates an object, unless something speaks against it; the result is
    /// what the other players are told.
    pub fn update_object(&mut self, client_id: ClientID, data: &Vec<u8>) -> (r: Result<
        Packet,
        UpdateObjectError,
    >)
        requires
            game_wf(old(self)@),
            has_player(old(self)@.players, client_id),
            data@.len() >= 4,
        ensures
            game_wf(final(self)@),
            match update_refusal(old(self)@, client_id, data@) {
                Some(e) => r == Err::<Packet, UpdateObjectError>(e) && final(self)@ == old(self)@,
                None => {
                    &&& final(self)@ == game_updated(old(self)@, client_id, data@)
                    &&& r is Ok
                    &&& r->Ok_0@ == packet_of(
                        Action::UPDATE_OBJECT,
                        object_bytes(update_result(old(self)@, client_id, data@)),
                    )
                },
            },
    {
        let ghost g = self@;
        proof {
            lemma_player_of(g.players, client_id);
        }
        let id: i32 = read_i32(data, 0);
        let (bind, world) = match self.get_player(client_id) {
            Some(player) => (player.bind, player.world),
            None => (None, None),
        };
        let player_bind_id: u8 = match bind {
            Some(bind) => bind.id(),
            None => {
                return Err(UpdateObjectError::PlayerNotBind(client_id));
            },
        };
        match self.vanjects.get(&id) {
            Some(vanject) => {
                assert(g.vanjects.contains_key(id));
                assert(g.vanjects[id] == vanject@);
                if vanject.is_non_global() {
                    let world_id: u8 = vanject.get_world() as u8;
                    match world {
                        Some(world) => {
                            if world.id != world_id {
                                return Err(UpdateObjectError::WrongWorld(id, world_id, world.id));
                            }
                        },
                        None => {
                            return Err(UpdateObjectError::PlayerWorldEmpty(client_id));
                        },
                    }
                    if vanject.is_non_static() && vanject.player_bind_id != player_bind_id {
                        return Err(UpdateObjectError::NotOwner(id, player_bind_id));
                    }
                }
            },
            None => {
                return Err(UpdateObjectError::VanjectNotFound(id));
            },
        }
        let ghost objects = self.vanjects@;
        let mut vanject = match self.vanjects.remove(&id) {
            Some(vanject) => vanject,
            None => {
                return Err(UpdateObjectError::VanjectNotFound(id));
            },
        };
        assert(vanject@ == g.vanjects[id]);
        let outcome = vanject.update_from_slice(data);
        if let Err(err) = outcome {
            let ghost v = vanject;
            self.vanjects.insert(id, vanject);
            proof {
                assert(self.vanjects@ =~= objects.insert(id, v));
                lemma_vanjects_insert(objects, id, v);
                assert(self@.vanjects =~= g.vanjects);
            }
            return Err(UpdateObjectError::SliceToVanjectParse(err));
        }
        vanject.player_bind_id = player_bind_id;
        let bytes = vanject.to_vangers_byte();
        let packet = Packet::new(Action::UPDATE_OBJECT, &bytes);
        let ghost v = vanject;
        self.vanjects.insert(id, vanject);
        proof {
            assert(self.vanjects@ =~= objects.insert(id, v));
            lemma_vanjects_insert(objects, id, v);
            assert(self@ =~= game_updated(g, client_id, data@));
        }
        Ok(packet)
    }
}

/// Why the server turns down an update.
pub open spec fn update_object_refusal(
    s: ServerModel,
    data: Seq<u8>,
    client_id: ClientID,
) -> Option<UpdateObjectError> {
    if data.len() < 4 {
        Some(UpdateObjectError::SliceTooSmall)
    } else if !has_game(s.games, client_id) {
        Some(UpdateObjectError::PlayerNotFound(client_id))
    } else {
        update_refusal(game_of(s.games, client_id), client_id, data)
    }
}

/// The server after an update: the object has changed, and the others in its
/// world are told, or all others in the game if it belongs to no world.
pub open spec fn update_object_effect(
    s: ServerModel,
    data: Seq<u8>,
    client_id: ClientID,
) -> ServerModel {
    let id = le_i32(data, 0);
    let g = game_of(s.games, client_id);
    let after = ServerModel {
        games: with_game(s.games, client_id, game_updated(g, client_id, data)),
        ..s
    };
    let packet = packet_of(
        Action::UPDATE_OBJECT,
        object_bytes(update_result(g, client_id, data)),
    );
    if non_global_id(id) {
        told_world(after, client_id, world_of(id) as u8, packet, false)
    } else {
        told_game(after, client_id, packet)
    }
}

impl Server {
    /// Answers `UPDATE_OBJECT`.
    pub fn update_object(&mut self, packet: &Packet, client_id: ClientID) -> (r: Result<
        OnUpdateOk,
        OnUpdateError,
    >)
        requires
            old(self).wf(),
        ensures
            final(self).wf(),
            match update_object_refusal(old(self)@, packet.data@, client_id) {
                Some(e) => {
                    &&& r == Err::<OnUpdateOk, OnUpdateError>(OnUpdateError::UpdateObjectError(e))
                    &&& final(self)@ == old(self)@
                },
                None => {
                    &&& r == Ok::<OnUpdateOk, OnUpdateError>(OnUpdateOk::Complete)
                    &&& final(self)@ == update_object_effect(old(self)@, packet.data@, client_id)
                },
            },
    {
        if packet.data.len() < 4 {
            return Err(OnUpdateError::UpdateObjectError(UpdateObjectError::SliceTooSmall));
        }
        let id: i32 = read_i32(&packet.data, 0);
        let ghost s = self@;
        let ghost data = packet.data@;
        proof {
            if has_game(s.games, client_id) {
                lemma_game_of(s.games, client_id);
            }
        }
        let outcome = match self.get_mut_game_by_clientid(client_id) {
            Some(game) => game.update_object(client_id, &packet.data),
            None => Err(UpdateObjectError::PlayerNotFound(client_id)),
        };
        proof {
            if has_game(s.games, client_id) {
                let g = game_of(s.games, client_id);
                if update_refusal(g, client_id, data) is None {
                    lemma_game_step(s.games, client_id, game_updated(g, client_id, data));
                } else {
                    lemma_game_step(s.games, client_id, g);
                }
            }
        }
        match outcome {
            Ok(answer) => {
                if is_non_global_vanject(id) {
                    self.notify_world(client_id, get_world(id) as u8, &answer, false);
                } else {
                    self.notify_game(client_id, &answer);
                }
                Ok(OnUpdateOk::Complete)
            },
            Err(err) => Err(OnUpdateError::UpdateObjectError(err)),
        }
    }
}

/// What belongs to a world and is not fixed there is updated only by its owner
/// and from within that world; what belongs to no world, by anyone.
pub proof fn lemma_who_updates(g: GameModel, client_id: ClientID, data: Seq<u8>)
    requires
        update_refusal(g, client_id, data) is None,
    ensures
        ({
            let id = le_i32(data, 0);
            let p = player_of(g, client_id);
            &&& non_global_id(id) ==> p.world is Some && p.world->0.id == world_of(id)
            &&& non_global_id(id) && !static_id(id) ==> g.vanjects[id].player_bind_id
                == p.bind->0.id
        }),
{
}

/// An update changes one object, which keeps its id and its radius.
pub proof fn lemma_update_touches_one_object(g: GameModel, client_id: ClientID, data: Seq<u8>)
    requires
        game_wf(g),
        update_refusal(g, client_id, data) is None,
    ensures
        ({
            let id = le_i32(data, 0);
            let after = game_updated(g, client_id, data);
            &&& after.vanjects.dom() == g.vanjects.dom()
            &&& after.vanjects[id].id == id
            &&& after.vanjects[id].radius == g.vanjects[id].radius
            &&& forall|other: i32| other != id ==> #[trigger] after.vanjects[other]
                == g.vanjects[other]
        }),
{
    let id = le_i32(data, 0);
    assert(g.vanjects.contains_key(id));
    assert(game_updated(g, client_id, data).vanjects.dom() =~= g.vanjects.dom());
}

} // verus!
