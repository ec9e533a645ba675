//! `CLOSE_SOCKET`: a player leaves its game for good.

use vstd::prelude::*;

use crate::client::ClientID;
use crate::game::{
    game_wf, has_player, lemma_player_of, player_at, player_of, player_models,
    remembered, removed_models, Game, GameModel, RemovedPlayer,
};
use crate::games::{
    game_at, game_of, has_game, lemma_game_change_keeps_wf, lemma_game_of, with_game,
};
use crate::player::player_wf;
use crate::protocol::Packet;
use crate::server::{Server, ServerModel};

use super::{OnUpdateError, OnUpdateOk};

verus! {

/// Why a player could not leave.
#[derive(Clone, Copy, Debug, PartialEq, Eq, Structural)]
pub enum CloseSocketError {
    /// The client is in no game.
    PlayerNotFound(ClientID),
}

/// The game without the player over `client_id`, of whom it remembers the name
/// and the record.
pub open spec fn player_gone(g: GameModel, client_id: ClientID) -> GameModel {
    GameModel {
        players: g.players.remove(player_at(g.players, client_id)),
        removed_players: match remembered(player_of(g, client_id)) {
            Some(m) => g.removed_players.push(m),
            None => g.removed_players,
        },
        ..g
    }
}

/// The server after the player over `client_id` left its game; a game without
/// players is closed.
pub open spec fn close_effect(s: ServerModel, client_id: ClientID) -> ServerModel {
    let g = player_gone(game_of(s.games, client_id), client_id);
    ServerModel {
        games: if g.players.len() == 0 {
            s.games.remove(game_at(s.games, client_id))
        } else {
            with_game(s.games, client_id, g)
        },
        ..s
    }
}

/// A game stays well-formed when a player leaves.
proof fn lemma_player_gone_wf(g: GameModel, client_id: ClientID)
    requires
        game_wf(g),
        has_player(g.players, client_id),
    ensures
        game_wf(player_gone(g, client_id)),
{
    lemma_player_of(g.players, client_id);
    let k = player_at(g.players, client_id);
    let after = player_gone(g, client_id).players;
    let at = |i: int| if i < k { i } else { i + 1 };
    assert forall|a: int, b: int|
        #![trigger after[a], after[b]]
        0 <= a < b < after.len() && after[a].bind is Some implies after[a].bind
        != after[b].bind by {
        assert(after[a] == g.players[at(a)]);
        assert(after[b] == g.players[at(b)]);
    }
    assert forall|i: int| 0 <= i < after.len() implies player_wf(#[trigger] after[i]) by {
        assert(after[i] == g.players[at(i)]);
    }
}

impl Game {
    /// Lets the player over `client_id` leave for good.
    pub fn remove_player(&mut self, client_id: ClientID)
        requires
            game_wf(old(self)@),
            has_player(old(self)@.players, client_id),
        ensures
            game_wf(final(self)@),
            final(self)@ == player_gone(old(self)@, client_id),
    {
        let ghost g = self@;
        proof {
            lemma_player_of(g.players, client_id);
            lemma_player_gone_wf(g, client_id);
        }
        if let Some(i) = self.find_player(client_id) {
            let ghost players = self.players@;
            let ghost removed = self.removed_players@;
            assert(g.players[i as int] == players[i as int]@);
            if let Some(player) = RemovedPlayer::from_player(&self.players[i]) {
                self.removed_players.push(player);
                assert(removed_models(self.removed_players@) =~= removed_models(removed).push(
                    player@,
                ));
            }
            self.players.remove(i);
            assert(player_models(self.players@) =~= player_models(players).remove(i as int));
            assert(self@ =~= player_gone(g, client_id));
        }
    }
}

impl Server {
    /// Answers `CLOSE_SOCKET`.
    pub fn close_socket(&mut self, _packet: &Packet, client_id: ClientID) -> (r: Result<
        OnUpdateOk,
        OnUpdateError,
    >)
        requires
            old(self).wf(),
        ensures
            final(self).wf(),
            final(self).clients == old(self).clients,
            has_game(old(self)@.games, client_id) ==> {
                &&& r == Ok::<OnUpdateOk, OnUpdateError>(OnUpdateOk::Complete)
                &&& final(self)@ == close_effect(old(self)@, client_id)
            },
            !has_game(old(self)@.games, client_id) ==> {
                &&& r == Err::<OnUpdateOk, OnUpdateError>(
                    OnUpdateError::CloseSocketError(CloseSocketError::PlayerNotFound(client_id)),
                )
                &&& final(self)@ == old(self)@
            },
    {
        let ghost s = self@;
        match self.games.find_game(client_id) {
            Some(i) => {
                proof {
                    lemma_game_of(s.games, client_id);
                    lemma_player_gone_wf(game_of(s.games, client_id), client_id);
                    lemma_game_change_keeps_wf(
                        s.games,
                        client_id,
                        player_gone(game_of(s.games, client_id), client_id),
                    );
                }
                let game = &mut self.games.entries[i].1;
                game.remove_player(client_id);
                assert(self.games@ =~= with_game(
                    s.games,
                    client_id,
                    player_gone(game_of(s.games, client_id), client_id),
                ));
                if self.games.entries[i].1.players.len() == 0 {
                    self.games.remove_at(i);
                    assert(self.games@ =~= s.games.remove(i as int));
                }
                Ok(OnUpdateOk::Complete)
            },
            None => Err(
                OnUpdateError::CloseSocketError(CloseSocketError::PlayerNotFound(client_id)),
            ),
        }
    }
}

} // verus!
