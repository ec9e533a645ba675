//! `RESTORE_CONNECTION`: a player whose connection broke comes back over
//! another one.

use vstd::prelude::*;

use crate::bytes::{le_u32, read_u32};
use crate::client::{ClientID, ClientModel};
use crate::disconnect::is_expired;
use crate::game::{game_wf, lemma_some_player, Game, GameModel};
use crate::games::{
    game_with_id, game_with_id_at, has_game, has_game_with_id, is_game_with_id, lemma_game_with_id,
    lemma_some_game,
};
use crate::player::{player_wf, Bind, PlayerModel};
use crate::protocol::{packet_of, Action, Packet, PacketModel};
use crate::server::{Server, ServerModel};

use super::{OnUpdateError, OnUpdateOk};

verus! {

/// Why a return was turned down.
#[derive(Clone, Copy, Debug, PartialEq, Eq, Structural)]
pub enum RestoreConnectionError {
    /// The payload is not the id of a game and the number of a player.
    PayloadInvalid,
}

/// Whether the first player with the number `id` stands at `i`.
pub open spec fn is_bound_at(players: Seq<PlayerModel>, id: u8, i: int) -> bool {
    &&& 0 <= i < players.len()
    &&& players[i].bind == Some(Bind { id })
    &&& forall|j: int| 0 <= j < i ==> (#[trigger] players[j]).bind != Some(Bind { id })
}

/// Whether a player has the number `id`.
pub open spec fn has_bound(players: Seq<PlayerModel>, id: u8) -> bool {
    exists|i: int| is_bound_at(players, id, i)
}

/// Where the first player with the number `id` stands.
pub open spec fn bound_at(players: Seq<PlayerModel>, id: u8) -> int {
    choose|i: int| is_bound_at(players, id, i)
}

/// A player who has come back over the connection `client_id`.
pub open spec fn come_back(p: PlayerModel, client_id: ClientID) -> PlayerModel {
    PlayerModel { client_id, disconnected_until: None, ..p }
}

/// The game after the player with the number `id` came back.
pub open spec fn game_rejoined(g: GameModel, id: u8, client_id: ClientID) -> GameModel {
    let i = bound_at(g.players, id);
    GameModel { players: g.players.update(i, come_back(g.players[i], client_id)), ..g }
}

/// Whether the game that a payload names has the player that it names.
pub open spec fn can_come_back(s: ServerModel, data: Seq<u8>) -> bool {
    let game_id = le_u32(data, 0) as u32;
    has_game_with_id(s.games, game_id) && has_bound(
        game_with_id(s.games, game_id).players,
        data[4],
    )
}

/// The clients without those of the connection `id`.
pub open spec fn clients_without(clients: Seq<ClientModel>, id: ClientID) -> Seq<ClientModel> {
    clients.filter(|c: ClientModel| c.id != id)
}

/// The server after a player came back: the player has moved over to the new
/// connection, and the old one is forgotten.
pub open spec fn restore_effect(s: ServerModel, data: Seq<u8>, client_id: ClientID) -> ServerModel {
    let game_id = le_u32(data, 0) as u32;
    let i = game_with_id_at(s.games, game_id);
    let g = game_with_id(s.games, game_id);
    let old_client_id = g.players[bound_at(g.players, data[4])].client_id;
    ServerModel {
        games: s.games.update(i, (game_id, game_rejoined(g, data[4], client_id))),
        clients: if old_client_id != client_id {
            clients_without(s.clients, old_client_id)
        } else {
            s.clients
        },
        ..s
    }
}

/// The answer to a return: whether it worked.
pub open spec fn restore_answer(restored: bool) -> PacketModel {
    packet_of(Action::RESTORE_CONNECTION_RESPONSE, seq![if restored { 1u8 } else { 0u8 }])
}

/// The player with a number is found where it is first.
pub proof fn lemma_bound_at(players: Seq<PlayerModel>, id: u8, i: int)
    requires
        is_bound_at(players, id, i),
    ensures
        has_bound(players, id),
        bound_at(players, id) == i,
{
    let k = bound_at(players, id);
    assert(is_bound_at(players, id, k));
    if k < i {
        assert(players[k].bind == Some(Bind { id }));
    } else if i < k {
        assert(players[i].bind == Some(Bind { id }));
    }
}

proof fn lemma_rejoined_wf(g: GameModel, id: u8, client_id: ClientID)
    requires
        game_wf(g),
        has_bound(g.players, id),
    ensures
        game_wf(game_rejoined(g, id, client_id)),
{
    let i = bound_at(g.players, id);
    assert(is_bound_at(g.players, id, i));
    let after = game_rejoined(g, id, client_id).players;
    assert forall|a: int, b: int|
        #![trigger after[a], after[b]]
        0 <= a < b < after.len() && after[a].bind is Some implies after[a].bind
        != after[b].bind by {
        assert(after[a].bind == g.players[a].bind);
        assert(after[b].bind == g.players[b].bind);
    }
    assert forall|k: int| 0 <= k < after.len() implies player_wf(#[trigger] after[k]) by {
        assert(player_wf(g.players[k]));
    }
}

impl Game {
    /// Moves the player with the number `id` over to the connection
    /// `client_id`; the result is the connection that it had.
    pub fn rejoin(&mut self, id: u8, client_id: ClientID) -> (r: Option<ClientID>)
        requires
            game_wf(old(self)@),
        ensures
            game_wf(final(self)@),
            has_bound(old(self)@.players, id) ==> {
                &&& r == Some(
                    old(self)@.players[bound_at(old(self)@.players, id)].client_id,
                )
                &&& final(self)@ == game_rejoined(old(self)@, id, client_id)
            },
            !has_bound(old(self)@.players, id) ==> r is None && final(self)@ == old(self)@,
    {
        let ghost g = self@;
        let mut i: usize = 0;
        while i < self.players.len()
            invariant
                0 <= i <= self.players@.len(),
                *self == *old(self),
                g == self@,
                game_wf(g),
                forall|j: int|
                    0 <= j < i ==> (#[trigger] g.players[j]).bind != Some(Bind { id }),
            decreases self.players@.len() - i,
        {
            assert(g.players[i as int] == self.players@[i as int]@);
            let bound: bool = match self.players[i].bind {
                Some(bind) => bind.id == id,
                None => false,
            };
            if bound {
                proof {
                    lemma_bound_at(g.players, id, i as int);
                    lemma_rejoined_wf(g, id, client_id);
                }
                let old_client_id: ClientID = self.players[i].client_id;
                let player = &mut self.players[i];
                player.client_id = client_id;
                player.disconnected_until = None;
                assert(self@.players =~= game_rejoined(g, id, client_id).players);
                return Some(old_client_id);
            }
            i = i + 1;
        }
        None
    }
}

impl Server {
    /// Forgets the clients of the connection `id`.
    pub fn remove_client(&mut self, id: ClientID)
        requires
            old(self).wf(),
        ensures
            final(self).wf(),
            final(self)@ == (ServerModel {
                clients: clients_without(old(self)@.clients, id),
                ..old(self)@
            }),
            final(self).games == old(self).games,
    {
        let ghost keep = |c: ClientModel| c.id != id;
        let ghost before = self@.clients;
        let mut i: usize = 0;
        proof {
            assert(before.take(0) + before.skip(0).filter(keep) =~= before.filter(keep)) by {
                assert(before.skip(0) =~= before);
            }
        }
        while i < self.clients.len()
            invariant
                0 <= i <= self.clients@.len(),
                self.wf(),
                self.games == old(self).games,
                self.conf == old(self).conf,
                self.games_id_uniq == old(self).games_id_uniq,
                keep == (|c: ClientModel| c.id != id),
                self@.clients.take(i as int) + self@.clients.skip(i as int).filter(keep)
                    == before.filter(keep),
            decreases self.clients@.len() - i,
        {
            let ghost now = self@.clients;
            let ghost rest = now.skip(i as int);
            proof {
                assert(now[i as int] == self.clients@[i as int]@);
                assert(rest =~= seq![now[i as int]] + rest.drop_first());
                lemma_filter_first(rest, keep);
                assert(rest.drop_first() =~= now.skip(i + 1));
            }
            if self.clients[i].id == id {
                let ghost clients = self.clients@;
                self.clients.remove(i);
                proof {
                    assert(self@.clients =~= now.remove(i as int));
                    assert(self@.clients.take(i as int) =~= now.take(i as int));
                    assert(self@.clients.skip(i as int) =~= now.skip(i + 1));
                    assert forall|k: int| 0 <= k < self.clients@.len() implies (
                    #[trigger] self.clients@[k]).wf() by {
                        if k < i {
                            assert(self.clients@[k] == clients[k]);
                        } else {
                            assert(self.clients@[k] == clients[k + 1]);
                        }
                    }
                }
            } else {
                i = i + 1;
                proof {
                    assert(now.take(i as int) + now.skip(i as int).filter(keep) =~= now.take(
                        i - 1,
                    ) + rest.filter(keep));
                }
            }
        }
        proof {
            reveal(Seq::filter);
            assert(self@.clients.skip(i as int).filter(keep) =~= Seq::empty());
            assert(self@.clients =~= before.filter(keep));
        }
    }

    /// Answers `RESTORE_CONNECTION`.
    pub fn restore_connection(&mut self, packet: &Packet, client_id: ClientID) -> (r: Result<
        OnUpdateOk,
        OnUpdateError,
    >)
        requires
            old(self).wf(),
        ensures
            final(self).wf(),
            packet.data@.len() != 5 ==> {
                &&& r == Err::<OnUpdateOk, OnUpdateError>(
                    OnUpdateError::RestoreConnectionError(RestoreConnectionError::PayloadInvalid),
                )
                &&& final(self)@ == old(self)@
            },
            packet.data@.len() == 5 ==> {
                let restored = can_come_back(old(self)@, packet.data@);
                &&& r matches Ok(OnUpdateOk::Response(p)) && p@ == restore_answer(restored)
                &&& final(self)@ == if restored {
                    restore_effect(old(self)@, packet.data@, client_id)
                } else {
                    old(self)@
                }
            },
    {
        if packet.data.len() != 5 {
            return Err(
                OnUpdateError::RestoreConnectionError(RestoreConnectionError::PayloadInvalid),
            );
        }
        let game_id: u32 = read_u32(&packet.data, 0);
        let player_id: u8 = packet.data[4];
        let ghost s = self@;
        proof {
            if has_game_with_id(s.games, game_id) {
                assert(is_game_with_id(s.games, game_id, game_with_id_at(s.games, game_id)));
            }
        }
        let restored_client_id: Option<ClientID> = match self.games.get_mut_game_by_id(game_id) {
            Some(game) => game.rejoin(player_id, client_id),
            None => None,
        };
        proof {
            if has_game_with_id(s.games, game_id) {
                let i = game_with_id_at(s.games, game_id);
                assert forall|k: int| 0 <= k < self.games@.len() implies game_wf(
                    (#[trigger] self.games@[k]).1,
                ) by {
                    if k != i {
                        assert(self.games@[k] == s.games[k]);
                    }
                }
                assert forall|a: int, b: int|
                    #![trigger self.games@[a], self.games@[b]]
                    0 <= a < b < self.games@.len() implies self.games@[a].0
                    != self.games@[b].0 by {
                    assert(self.games@[a].0 == s.games[a].0);
                    assert(self.games@[b].0 == s.games[b].0);
                }
                if !can_come_back(s, packet.data@) {
                    assert(self.games@ =~= s.games);
                }
            }
        }
        let restored: u8 = match restored_client_id {
            Some(old_client_id) => {
                if old_client_id != client_id {
                    self.remove_client(old_client_id);
                }
                1
            },
            None => 0,
        };
        let answer: Vec<u8> = vec![restored];
        assert(answer@ =~= seq![restored]);
        Ok(OnUpdateOk::Response(Packet::new(Action::RESTORE_CONNECTION_RESPONSE, &answer)))
    }
}

proof fn lemma_filter_first<A>(s: Seq<A>, keep: spec_fn(A) -> bool)
    requires
        s.len() > 0,
    ensures
        s.filter(keep) == (if keep(s[0]) {
            seq![s[0]] + s.drop_first().filter(keep)
        } else {
            s.drop_first().filter(keep)
        }),
    decreases s.len(),
{
    reveal(Seq::filter);
    if s.len() == 1 {
        assert(s.drop_last() =~= Seq::empty());
        assert(s.drop_first() =~= Seq::empty());
        assert(s.filter(keep) =~= (if keep(s[0]) {
            seq![s[0]] + s.drop_first().filter(keep)
        } else {
            s.drop_first().filter(keep)
        }));
    } else {
        let t = s.drop_last();
        lemma_filter_first(t, keep);
        assert(t[0] == s[0]);
        assert(t.drop_first() =~= s.drop_first().drop_last());
        assert(s.drop_first().last() == s.last());
        assert(s.filter(keep) =~= (if keep(s[0]) {
            seq![s[0]] + s.drop_first().filter(keep)
        } else {
            s.drop_first().filter(keep)
        }));
    }
}

/// A player who came back is the one who was away: it has its number and all
/// that it had, is reached over the new connection, and is not given up any
/// more.
pub proof fn lemma_restored_player(s: ServerModel, data: Seq<u8>, client_id: ClientID, now_ms: u64)
    requires
        can_come_back(s, data),
    ensures
        ({
            let game_id = le_u32(data, 0) as u32;
            let g = game_with_id(s.games, game_id);
            let i = bound_at(g.players, data[4]);
            let after = restore_effect(s, data, client_id);
            let h = game_with_id(after.games, game_id);
            &&& h.players.len() == g.players.len()
            &&& h.players[i] == (PlayerModel {
                client_id,
                disconnected_until: None,
                ..g.players[i]
            })
            &&& h.players[i].bind == Some(Bind { id: data[4] })
            &&& !is_expired(h.players[i], now_ms)
            &&& has_game(after.games, client_id)
            &&& forall|k: int| 0 <= k < g.players.len() && k != i ==> #[trigger] h.players[k]
                == g.players[k]
        }),
{
    let game_id = le_u32(data, 0) as u32;
    let n = game_with_id_at(s.games, game_id);
    assert(is_game_with_id(s.games, game_id, n));
    let g = game_with_id(s.games, game_id);
    let i = bound_at(g.players, data[4]);
    assert(is_bound_at(g.players, data[4], i));
    let after = restore_effect(s, data, client_id).games;
    assert forall|j: int| 0 <= j < n implies (#[trigger] after[j]).0 != game_id by {
        assert(after[j] == s.games[j]);
    }
    lemma_game_with_id(after, game_id, n);
    lemma_some_player(after[n].1.players, i);
    lemma_some_game(after, n, client_id);
}

} // verus!
