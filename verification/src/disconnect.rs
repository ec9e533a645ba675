//! Players whose connection broke: how long they may come back.

use vstd::prelude::*;

use crate::callback::close_socket::{close_effect, player_gone};
use crate::client::ClientID;
use crate::game::{
    lemma_player_change_keeps_place,
    lemma_player_change_keeps_wf, lemma_player_of, lemma_some_player, player_at, player_of, with_player, Game,
    GameModel,
};
use crate::games::{
    game_at, game_of, has_game, is_first_game, lemma_game_change_keeps_place, lemma_game_of, lemma_game_step,
    lemma_some_game, with_game,
};
use crate::player::PlayerModel;
use crate::protocol::{Action, Packet};
use crate::server::{Server, ServerModel};

verus! {

/// How long, in milliseconds, a player whose connection broke may come back.
pub const DISCONNECTED_PLAYER_TTL: u64 = 60_000;

/// The server after the connection `client_id` broke at `now_ms`.
pub open spec fn marked(s: ServerModel, client_id: ClientID, now_ms: u64) -> ServerModel {
    if has_game(s.games, client_id) {
        let g = game_of(s.games, client_id);
        let p = PlayerModel {
            disconnected_until: Some((now_ms + DISCONNECTED_PLAYER_TTL) as u64),
            ..player_of(g, client_id)
        };
        ServerModel {
            games: with_game(s.games, client_id, with_player(g, client_id, p)),
            ..s
        }
    } else {
        s
    }
}

/// Whether a player has been away for too long at `now_ms`.
pub open spec fn is_expired(p: PlayerModel, now_ms: u64) -> bool {
    p.disconnected_until matches Some(deadline) && deadline <= now_ms
}

/// The connection of a player who has been away for too long.
pub open spec fn expired_id(p: PlayerModel, now_ms: u64) -> Option<ClientID> {
    if is_expired(p, now_ms) {
        Some(p.client_id)
    } else {
        None
    }
}

/// The connections of the players of a game who have been away for too long.
pub open spec fn expired_in(g: GameModel, now_ms: u64) -> Seq<ClientID> {
    g.players.filter_map(|p: PlayerModel| expired_id(p, now_ms))
}

/// The connections of all players who have been away for too long.
pub open spec fn expired_ids(games: Seq<(u32, GameModel)>, now_ms: u64) -> Seq<ClientID>
    decreases games.len(),
{
    if games.len() == 0 {
        Seq::empty()
    } else {
        expired_ids(games.drop_last(), now_ms) + expired_in(games.last().1, now_ms)
    }
}

/// The server after the players over some connections left their games, one
/// after the other.
pub open spec fn closed_each(s: ServerModel, ids: Seq<ClientID>) -> ServerModel
    decreases ids.len(),
{
    if ids.len() == 0 {
        s
    } else {
        let before = closed_each(s, ids.drop_last());
        if has_game(before.games, ids.last()) {
            close_effect(before, ids.last())
        } else {
            before
        }
    }
}

/// The server after those who have been away for too long were given up.
pub open spec fn expired(s: ServerModel, now_ms: u64) -> ServerModel {
    closed_each(s, expired_ids(s.games, now_ms))
}

/// Appends the connections of the players of `game` who have been away for too
/// long.
fn push_expired(ids: &mut Vec<ClientID>, game: &Game, now_ms: u64)
    ensures
        final(ids)@ == old(ids)@ + expired_in(game@, now_ms),
{
    let ghost players = game@.players;
    let ghost pick = |p: PlayerModel| expired_id(p, now_ms);
    let mut i: usize = 0;
    assert(ids@ =~= old(ids)@ + players.take(0).filter_map(pick));
    while i < game.players.len()
        invariant
            0 <= i <= game.players@.len(),
            players == game@.players,
            pick == (|p: PlayerModel| expired_id(p, now_ms)),
            ids@ == old(ids)@ + players.take(i as int).filter_map(pick),
        decreases game.players@.len() - i,
    {
        let player = &game.players[i];
        assert(players[i as int] == player@);
        if let Some(deadline) = player.disconnected_until {
            if deadline <= now_ms {
                ids.push(player.client_id);
            }
        }
        proof {
            players.lemma_filter_map_take_succ(pick, i as int);
            assert(ids@ =~= old(ids)@ + players.take(i + 1).filter_map(pick));
        }
        i = i + 1;
    }
    assert(players.take(i as int) =~= players);
}

impl Server {
    /// Takes note that the connection `client_id` broke at `now_ms`.
    pub fn mark_player_disconnected(&mut self, client_id: ClientID, now_ms: u64)
        requires
            old(self).wf(),
            now_ms <= u64::MAX - DISCONNECTED_PLAYER_TTL,
        ensures
            final(self).wf(),
            final(self)@ == marked(old(self)@, client_id, now_ms),
            final(self).clients == old(self).clients,
    {
        let ghost s = self@;
        proof {
            if has_game(s.games, client_id) {
                let g = game_of(s.games, client_id);
                lemma_game_of(s.games, client_id);
                lemma_player_of(g.players, client_id);
                let p = PlayerModel {
                    disconnected_until: Some((now_ms + DISCONNECTED_PLAYER_TTL) as u64),
                    ..player_of(g, client_id)
                };
                lemma_player_change_keeps_wf(g, client_id, p);
                lemma_player_change_keeps_place(g, client_id, p);
                lemma_game_step(s.games, client_id, with_player(g, client_id, p));
            }
        }
        if let Some(player) = self.games.get_mut_player_by_client_id(client_id) {
            player.disconnected_until = Some(now_ms + DISCONNECTED_PLAYER_TTL);
        }
    }

    /// Gives up the players who at `now_ms` have been away for too long.
    pub fn expire_disconnected_players(&mut self, now_ms: u64)
        requires
            old(self).wf(),
        ensures
            final(self).wf(),
            final(self)@ == expired(old(self)@, now_ms),
            final(self).clients == old(self).clients,
    {
        let ghost s = self@;
        let ghost games = s.games;
        let mut ids: Vec<ClientID> = Vec::new();
        let mut i: usize = 0;
        assert(ids@ =~= expired_ids(games.take(0), now_ms));
        while i < self.games.entries.len()
            invariant
                0 <= i <= self.games.entries@.len(),
                *self == *old(self),
                games == self@.games,
                ids@ == expired_ids(games.take(i as int), now_ms),
            decreases self.games.entries@.len() - i,
        {
            let game = &self.games.entries[i].1;
            push_expired(&mut ids, game, now_ms);
            i = i + 1;
            proof {
                assert(games[i - 1].1 == game@);
                assert(games.take(i as int).drop_last() =~= games.take(i - 1));
                assert(games.take(i as int).last().1 == game@);
            }
        }
        assert(games.take(i as int) =~= games);
        let nothing: Vec<u8> = Vec::new();
        let packet = Packet::new(Action::CLOSE_SOCKET, &nothing);
        let ghost all = ids@;
        let mut i: usize = 0;
        assert(self@ == closed_each(s, all.take(0)));
        while i < ids.len()
            invariant
                0 <= i <= ids@.len(),
                all == ids@,
                self.wf(),
                self.clients == old(self).clients,
                self@ == closed_each(s, all.take(i as int)),
            decreases ids@.len() - i,
        {
            let _ = self.close_socket(&packet, ids[i]);
            i = i + 1;
            proof {
                assert(all.take(i as int).drop_last() =~= all.take(i - 1));
                assert(all.take(i as int).last() == ids@[i - 1]);
            }
        }
        assert(all.take(i as int) =~= all);
    }
}

/// Whether a player is in some game.
pub open spec fn present(games: Seq<(u32, GameModel)>, p: PlayerModel) -> bool {
    exists|i: int, k: int|
        0 <= i < games.len() && 0 <= k < games[i].1.players.len()
            && #[trigger] games[i].1.players[k] == p
}

/// Whether each player of the server has a connection of its own.
pub open spec fn connections_distinct(games: Seq<(u32, GameModel)>) -> bool {
    forall|i: int, k: int, j: int, l: int|
        #![trigger games[i].1.players[k], games[j].1.players[l]]
        0 <= i < games.len() && 0 <= k < games[i].1.players.len() && 0 <= j < games.len() && 0 <= l
            < games[j].1.players.len() && !(i == j && k == l) ==> games[i].1.players[k].client_id
            != games[j].1.players[l].client_id
}

/// Where each player has a connection of its own, exactly the player over
/// `client_id` is gone after it left.
proof fn lemma_close_removes_one(s: ServerModel, client_id: ClientID)
    requires
        connections_distinct(s.games),
        has_game(s.games, client_id),
    ensures
        connections_distinct(close_effect(s, client_id).games),
        forall|p: PlayerModel| #[trigger]
            present(close_effect(s, client_id).games, p) <==> present(s.games, p) && p.client_id
                != client_id,
{
    let games = s.games;
    let after = close_effect(s, client_id).games;
    let i0 = game_at(games, client_id);
    assert(is_first_game(games, client_id, i0));
    let g = games[i0].1;
    lemma_player_of(g.players, client_id);
    let k0 = player_at(g.players, client_id);
    let gone = player_gone(g, client_id);
    let closed = gone.players.len() == 0;
    let from_i = |i: int|
        if closed && i >= i0 {
            i + 1
        } else {
            i
        };
    let from_k = |i: int, k: int|
        if !closed && i == i0 && k >= k0 {
            k + 1
        } else {
            k
        };
    assert forall|i: int, k: int|
        0 <= i < after.len() && 0 <= k < after[i].1.players.len() implies {
        &&& 0 <= from_i(i) < games.len()
        &&& 0 <= from_k(i, k) < games[from_i(i)].1.players.len()
        &&& (#[trigger] after[i].1.players[k]) == games[from_i(i)].1.players[from_k(i, k)]
        &&& !(from_i(i) == i0 && from_k(i, k) == k0)
    } by {
        if closed {
            assert(after[i] == games[from_i(i)]);
        } else if i == i0 {
            assert(after[i].1 == gone);
        } else {
            assert(after[i] == games[i]);
        }
    }
    assert forall|i: int, k: int, j: int, l: int|
        #![trigger after[i].1.players[k], after[j].1.players[l]]
        0 <= i < after.len() && 0 <= k < after[i].1.players.len() && 0 <= j < after.len() && 0 <= l
            < after[j].1.players.len() && !(i == j && k == l) implies after[i].1.players[k].client_id
        != after[j].1.players[l].client_id by {
        let p = games[from_i(i)].1.players[from_k(i, k)];
        let q = games[from_i(j)].1.players[from_k(j, l)];
        assert(after[i].1.players[k] == p);
        assert(after[j].1.players[l] == q);
    }
    assert forall|p: PlayerModel| #[trigger]
        present(after, p) <==> present(games, p) && p.client_id != client_id by {
        if present(after, p) {
            let (i, k) = choose|i: int, k: int|
                0 <= i < after.len() && 0 <= k < after[i].1.players.len()
                    && #[trigger] after[i].1.players[k] == p;
            assert(games[from_i(i)].1.players[from_k(i, k)] == p);
            assert(games[i0].1.players[k0].client_id == client_id);
        }
        if present(games, p) && p.client_id != client_id {
            let (i, k) = choose|i: int, k: int|
                0 <= i < games.len() && 0 <= k < games[i].1.players.len()
                    && #[trigger] games[i].1.players[k] == p;
            assert(games[i0].1.players[k0].client_id == client_id);
            if closed {
                assert(g.players.len() == 1);
                assert(i != i0);
                let to_i = if i > i0 { i - 1 } else { i };
                assert(after[to_i] == games[i]);
                assert(after[to_i].1.players[k] == p);
            } else if i == i0 {
                let to_k = if k > k0 { k - 1 } else { k };
                assert(after[i].1 == gone);
                assert(after[i].1.players[to_k] == p);
            } else {
                assert(after[i] == games[i]);
                assert(after[i].1.players[k] == p);
            }
        }
    }
}

/// Where each player has a connection of its own, exactly the players over
/// `ids` are gone after they left.
proof fn lemma_closed_each_removes(s: ServerModel, ids: Seq<ClientID>)
    requires
        connections_distinct(s.games),
    ensures
        connections_distinct(closed_each(s, ids).games),
        forall|p: PlayerModel| #[trigger]
            present(closed_each(s, ids).games, p) <==> present(s.games, p) && !ids.contains(
                p.client_id,
            ),
    decreases ids.len(),
{
    if ids.len() > 0 {
        let (rest, id) = (ids.drop_last(), ids.last());
        lemma_closed_each_removes(s, rest);
        let before = closed_each(s, rest);
        let after = closed_each(s, ids);
        assert forall|x: ClientID| #[trigger] ids.contains(x) <==> rest.contains(x) || x == id by {
            if rest.contains(x) {
                let k = choose|k: int| 0 <= k < rest.len() && rest[k] == x;
                assert(ids[k] == x);
            }
            if ids.contains(x) && x != id {
                let k = choose|k: int| 0 <= k < ids.len() && ids[k] == x;
                assert(rest[k] == x);
            }
            assert(ids[ids.len() - 1] == id);
        }
        if has_game(before.games, id) {
            lemma_close_removes_one(before, id);
        } else {
            assert forall|p: PlayerModel| present(before.games, p) implies p.client_id != id by {
                let (i, k) = choose|i: int, k: int|
                    0 <= i < before.games.len() && 0 <= k < before.games[i].1.players.len()
                        && #[trigger] before.games[i].1.players[k] == p;
                lemma_some_player(before.games[i].1.players, k);
                if p.client_id == id {
                    lemma_some_game(before.games, i, id);
                }
            }
        }
        assert forall|p: PlayerModel| #[trigger]
            present(after.games, p) <==> present(s.games, p) && !ids.contains(p.client_id) by {
            assert(present(before.games, p) <==> present(s.games, p) && !rest.contains(
                p.client_id,
            ));
        }
    }
}

/// What is picked from a player is among what is picked from all.
proof fn lemma_picked(
    players: Seq<PlayerModel>,
    pick: spec_fn(PlayerModel) -> Option<ClientID>,
    l: int,
    id: ClientID,
)
    requires
        0 <= l < players.len(),
        pick(players[l]) == Some(id),
    ensures
        players.filter_map(pick).contains(id),
    decreases players.len(),
{
    let picked = players.filter_map(pick);
    if l == players.len() - 1 {
        assert(picked[picked.len() - 1] == id);
    } else {
        let before = players.drop_last().filter_map(pick);
        lemma_picked(players.drop_last(), pick, l, id);
        let k = choose|k: int| 0 <= k < before.len() && before[k] == id;
        assert(picked[k] == id);
    }
}

/// The connections found are those of players who have been away for too long.
proof fn lemma_expired_ids(games: Seq<(u32, GameModel)>, now_ms: u64, id: ClientID)
    ensures
        expired_ids(games, now_ms).contains(id) <==> exists|p: PlayerModel| #[trigger]
            present(games, p) && p.client_id == id && is_expired(p, now_ms),
    decreases games.len(),
{
    let ids = expired_ids(games, now_ms);
    if games.len() > 0 {
        let rest = games.drop_last();
        let g = games.last().1;
        let before = expired_ids(rest, now_ms);
        let here = expired_in(g, now_ms);
        let pick = |p: PlayerModel| expired_id(p, now_ms);
        lemma_expired_ids(rest, now_ms, id);
        assert(here == g.players.filter_map(pick));
        if ids.contains(id) {
            let k = choose|k: int| 0 <= k < ids.len() && ids[k] == id;
            if k < before.len() {
                assert(before[k] == id);
                assert(before.contains(id));
                let p = choose|p: PlayerModel| #[trigger]
                    present(rest, p) && p.client_id == id && is_expired(p, now_ms);
                let (i, l) = choose|i: int, l: int|
                    0 <= i < rest.len() && 0 <= l < rest[i].1.players.len()
                        && #[trigger] rest[i].1.players[l] == p;
                assert(games[i].1.players[l] == p);
                assert(present(games, p));
            } else {
                assert(here[k - before.len()] == id);
                assert(here.contains(id));
                g.players.lemma_filter_map_contains(pick, id);
                let p = choose|p: PlayerModel| #[trigger]
                    g.players.contains(p) && pick(p) == Some(id);
                let l = choose|l: int| 0 <= l < g.players.len() && g.players[l] == p;
                assert(games[games.len() - 1].1.players[l] == p);
                assert(present(games, p));
            }
        }
        if exists|p: PlayerModel| #[trigger]
            present(games, p) && p.client_id == id && is_expired(p, now_ms) {
            let p = choose|p: PlayerModel| #[trigger]
                present(games, p) && p.client_id == id && is_expired(p, now_ms);
            let (i, l) = choose|i: int, l: int|
                0 <= i < games.len() && 0 <= l < games[i].1.players.len()
                    && #[trigger] games[i].1.players[l] == p;
            if i < games.len() - 1 {
                assert(rest[i].1.players[l] == p);
                assert(present(rest, p));
                assert(before.contains(id));
                let k = choose|k: int| 0 <= k < before.len() && before[k] == id;
                assert(ids[k] == id);
            } else {
                assert(g.players[l] == p);
                lemma_picked(g.players, pick, l, id);
                let k = choose|k: int| 0 <= k < here.len() && here[k] == id;
                assert(ids[before.len() + k] == id);
            }
        }
    }
}

/// Where each player has a connection of its own, exactly those who have been
/// away for too long are given up: whoever is connected, or still has time to
/// come back, stays as it was.
pub proof fn lemma_only_the_expired_go(s: ServerModel, now_ms: u64, p: PlayerModel)
    requires
        connections_distinct(s.games),
    ensures
        present(expired(s, now_ms).games, p) <==> present(s.games, p) && !is_expired(p, now_ms),
{
    let ids = expired_ids(s.games, now_ms);
    lemma_closed_each_removes(s, ids);
    lemma_expired_ids(s.games, now_ms, p.client_id);
    if present(s.games, p) && ids.contains(p.client_id) {
        let q = choose|q: PlayerModel| #[trigger]
            present(s.games, q) && q.client_id == p.client_id && is_expired(q, now_ms);
        let (i, k) = choose|i: int, k: int|
            0 <= i < s.games.len() && 0 <= k < s.games[i].1.players.len()
                && #[trigger] s.games[i].1.players[k] == p;
        let (j, l) = choose|j: int, l: int|
            0 <= j < s.games.len() && 0 <= l < s.games[j].1.players.len()
                && #[trigger] s.games[j].1.players[l] == q;
        assert(i == j && k == l);
    }
}

/// A player whose connection breaks has the whole time to come back, and no
/// more.
pub proof fn lemma_time_to_come_back(
    s: ServerModel,
    client_id: ClientID,
    broken_ms: u64,
    now_ms: u64,
)
    requires
        has_game(s.games, client_id),
        broken_ms <= u64::MAX - DISCONNECTED_PLAYER_TTL,
    ensures
        has_game(marked(s, client_id, broken_ms).games, client_id),
        is_expired(
            player_of(game_of(marked(s, client_id, broken_ms).games, client_id), client_id),
            now_ms,
        ) <==> now_ms >= broken_ms + DISCONNECTED_PLAYER_TTL,
{
    let i = game_at(s.games, client_id);
    assert(is_first_game(s.games, client_id, i));
    let g = s.games[i].1;
    lemma_player_of(g.players, client_id);
    let p = PlayerModel {
        disconnected_until: Some((broken_ms + DISCONNECTED_PLAYER_TTL) as u64),
        ..player_of(g, client_id)
    };
    lemma_player_change_keeps_place(g, client_id, p);
    lemma_game_change_keeps_place(s.games, client_id, with_player(g, client_id, p));
}

} // verus!
