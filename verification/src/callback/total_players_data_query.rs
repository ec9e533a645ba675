//! What a player is told of all players of its game.

use vstd::prelude::*;

use crate::bytes::push_tail;
use crate::game::{Game, GameModel};
use crate::player::{status_code, Player, PlayerModel};
use crate::protocol::{packet_of, Action, Packet, PacketModel};
use crate::vanject::pos_bytes;

verus! {

/// What is told of one player: number, status, world, position, name, record.
pub open spec fn player_bytes(p: PlayerModel) -> Seq<u8> {
    let bind_id = match p.bind {
        Some(bind) => bind.id,
        None => 0,
    };
    let world_id = match p.world {
        Some(world) => world.id,
        None => 0,
    };
    let name = match p.auth {
        Some(auth) => auth.name,
        None => Seq::empty(),
    };
    let body = match p.body {
        Some(body) => body,
        None => Seq::empty(),
    };
    seq![bind_id, status_code(p.status), world_id] + pos_bytes(p.pos) + name + body
}

/// What is told of players, one after the other.
pub open spec fn roster_bytes(players: Seq<PlayerModel>) -> Seq<u8>
    decreases players.len(),
{
    if players.len() == 0 {
        Seq::empty()
    } else {
        roster_bytes(players.drop_last()) + player_bytes(players.last())
    }
}

/// What is told of all players of a game: how many there are, then each.
pub open spec fn roster_packet(g: GameModel) -> PacketModel {
    packet_of(
        Action::TOTAL_PLAYERS_DATA_RESPONSE,
        seq![(g.players.len() % 256) as u8] + roster_bytes(g.players),
    )
}

fn push_player(out: &mut Vec<u8>, p: &Player)
    ensures
        final(out)@ == old(out)@ + player_bytes(p@),
{
    let bind_id: u8 = match p.bind {
        Some(bind) => bind.id,
        None => 0,
    };
    let world_id: u8 = match p.world {
        Some(world) => world.id,
        None => 0,
    };
    out.push(bind_id);
    out.push(p.status.code());
    out.push(world_id);
    p.pos.push_bytes(out);
    if let Some(auth) = &p.auth {
        push_tail(out, &auth.name, 0);
        assert(auth.name@.skip(0) =~= auth.name@);
    }
    if let Some(body) = &p.body {
        push_tail(out, &body.bytes, 0);
        assert(body.bytes@.skip(0) =~= body.bytes@);
    }
    assert(out@ =~= old(out)@ + player_bytes(p@));
}

/// The packet about all players of `game`.
pub fn total_players_data_packet(game: &Game) -> (p: Packet)
    ensures
        p@ == roster_packet(game@),
{
    let ghost players = game@.players;
    let mut data: Vec<u8> = Vec::new();
    data.push((game.players.len() % 256) as u8);
    let ghost count = data@;
    let mut i: usize = 0;
    assert(data@ =~= count + roster_bytes(players.take(0)));
    while i < game.players.len()
        invariant
            0 <= i <= game.players@.len(),
            players == game@.players,
            data@ == count + roster_bytes(players.take(i as int)),
        decreases game.players@.len() - i,
    {
        push_player(&mut data, &game.players[i]);
        i = i + 1;
        proof {
            let next = players.take(i as int);
            assert(next.drop_last() =~= players.take(i - 1));
            assert(next.last() == game.players@[i - 1]@);
            assert(data@ =~= count + roster_bytes(next));
        }
    }
    assert(players.take(i as int) =~= players);
    Packet::new(Action::TOTAL_PLAYERS_DATA_RESPONSE, &data)
}

} // verus!
