//! `SET_POSITION`: a player says where it is.

use vstd::prelude::*;

use crate::bytes::{le_i16, read_i16};
use crate::client::ClientID;
use crate::game::{
    lemma_player_change_keeps_place, lemma_player_change_keeps_wf, lemma_player_of, player_of,
    with_player, };
use crate::games::{game_of, games_wf, has_game, lemma_game_of, lemma_game_step, with_game};
use crate::player::PlayerModel;
use crate::protocol::Packet;
use crate::server::{Server, ServerModel};
use crate::vanject::Pos;

use super::{OnUpdateError, OnUpdateOk};

verus! {

/// How many bytes the payload has: two coordinates and half the height of the
/// player's screen.
pub const SET_POSITION_SIZE: usize = 6;

/// Why a position was turned down.
#[derive(Clone, Copy, Debug, PartialEq, Eq, Structural)]
pub enum SetPositionError {
    /// The payload has another size than it should.
    InvalidPayloadSize { expected: usize, actual: usize },
    /// The client is in no game.
    PlayerNotFound(ClientID),
}

/// A player after it said where it is: out of all worlds it is nowhere.
pub open spec fn moved(p: PlayerModel, data: Seq<u8>) -> PlayerModel {
    if p.world is None {
        p
    } else {
        PlayerModel {
            pos: Pos { x: le_i16(data, 0), y: le_i16(data, 2) },
            screen_y_half_size: le_i16(data, 4),
            ..p
        }
    }
}

/// Why the server turns down a position.
pub open spec fn set_position_refusal(
    s: ServerModel,
    data: Seq<u8>,
    client_id: ClientID,
) -> Option<SetPositionError> {
    if data.len() != SET_POSITION_SIZE {
        Some(
            SetPositionError::InvalidPayloadSize {
                expected: SET_POSITION_SIZE,
                actual: data.len() as usize,
            },
        )
    } else if !has_game(s.games, client_id) {
        Some(SetPositionError::PlayerNotFound(client_id))
    } else {
        None
    }
}

/// The server after a player said where it is.
pub open spec fn set_position_effect(
    s: ServerModel,
    data: Seq<u8>,
    client_id: ClientID,
) -> ServerModel {
    let g = game_of(s.games, client_id);
    let p = moved(player_of(g, client_id), data);
    ServerModel { games: with_game(s.games, client_id, with_player(g, client_id, p)), ..s }
}

impl Server {
    /// Answers `SET_POSITION`.
    pub fn set_position(&mut self, packet: &Packet, client_id: ClientID) -> (r: Result<
        OnUpdateOk,
        OnUpdateError,
    >)
        requires
            old(self).wf(),
        ensures
            final(self).wf(),
            match set_position_refusal(old(self)@, packet.data@, client_id) {
                Some(e) => {
                    &&& r == Err::<OnUpdateOk, OnUpdateError>(OnUpdateError::SetPositionError(e))
                    &&& final(self)@ == old(self)@
                },
                None => {
                    &&& r == Ok::<OnUpdateOk, OnUpdateError>(OnUpdateOk::Complete)
                    &&& final(self)@ == set_position_effect(old(self)@, packet.data@, client_id)
                },
            },
    {
        if packet.data.len() != SET_POSITION_SIZE {
            return Err(
                OnUpdateError::SetPositionError(
                    SetPositionError::InvalidPayloadSize {
                        expected: SET_POSITION_SIZE,
                        actual: packet.data.len(),
                    },
                ),
            );
        }
        let x: i16 = read_i16(&packet.data, 0);
        let y: i16 = read_i16(&packet.data, 2);
        let screen_y_half_size: i16 = read_i16(&packet.data, 4);
        let ghost s = self@;
        let ghost g = game_of(s.games, client_id);
        let ghost p = player_of(g, client_id);
        proof {
            if has_game(s.games, client_id) {
                lemma_game_of(s.games, client_id);
                lemma_player_of(g.players, client_id);
                let q = moved(p, packet.data@);
                lemma_player_change_keeps_wf(g, client_id, q);
                lemma_player_change_keeps_place(g, client_id, q);
                lemma_game_step(s.games, client_id, with_player(g, client_id, q));
                assert(with_player(g, client_id, p) =~= g);
            }
        }
        match self.games.get_mut_player_by_client_id(client_id) {
            Some(player) => {
                if player.world.is_some() {
                    player.pos = Pos { x, y };
                    player.screen_y_half_size = screen_y_half_size;
                }
            },
            None => {
                return Err(
                    OnUpdateError::SetPositionError(SetPositionError::PlayerNotFound(client_id)),
                );
            },
        }
        Ok(OnUpdateOk::Complete)
    }
}

/// A player who is out of all worlds cannot say where it is.
pub proof fn lemma_position_before_world_is_ignored(
    s: ServerModel,
    data: Seq<u8>,
    client_id: ClientID,
)
    requires
        games_wf(s.games),
        has_game(s.games, client_id),
        player_of(game_of(s.games, client_id), client_id).world is None,
    ensures
        set_position_effect(s, data, client_id) == s,
{
    let g = game_of(s.games, client_id);
    lemma_game_of(s.games, client_id);
    lemma_player_of(g.players, client_id);
    assert(with_player(g, client_id, player_of(g, client_id)) =~= g);
    lemma_game_step(s.games, client_id, g);
}

} // verus!
