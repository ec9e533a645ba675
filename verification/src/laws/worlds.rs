//! What becomes of players who enter, leave and move about in worlds.

use vstd::prelude::*;
use vstd::set_lib::lemma_len_subset;

use crate::bytes::{i16_bytes, i32_bytes};
use crate::callback::leave_world::{
    game_left, leave_packets, leave_world_effect, leave_world_refusal, leaving_ids,
    lemma_game_left, LeaveWorldError,
};
use crate::callback::set_position::{
    moved, set_position_effect, set_position_refusal, SetPositionError,
};
use crate::callback::set_world::{snapshot_ids, snapshot_packets};
use crate::client::ClientID;
use crate::game::{
    game_wf, lemma_player_change_keeps_place, lemma_player_change_keeps_wf, lemma_player_of,
    player_at, player_of, with_player, GameModel,
};
use crate::games::{game_of, games_wf, lemma_game_of, lemma_game_step, with_game};
use crate::listing::{lemma_listing_exists, listing, place, Order};
use crate::player::PlayerModel;
use crate::protocol::{packet_of, Action, PacketModel};
use crate::server::{lemma_told_each_keeps_games, Recipients, ServerModel};
use crate::vanject::{station_of, type_of, world_of, VanjectModel, NID};

use super::hearing::{
    heard, lemma_each_is_heard, lemma_same_connections, lemma_who_is_meant, only_its_game, others,
};
use super::objects::{introduction, plays_somewhere};
use super::wire::{lemma_how_an_object_is_shown, lemma_read_is_written};

verus! {

/// Whether an object goes when the player with the number `bind_id` leaves: it
/// belongs to some world and is one that players carry, and the player owns it;
/// or it is private and the player's station made it.
pub open spec fn goes(v: VanjectModel, bind_id: u8) -> bool {
    ||| v.id & 0x20_0000 == 0 && v.id & 0x3_0000 != 0 && v.player_bind_id == bind_id
    ||| v.id & 0x8_0000 != 0 && station_of(v.id) == bind_id
}

/// Whether a game has the objects of another but for those that go with the
/// player with the number `bind_id`.
pub open spec fn cleared(g: GameModel, h: GameModel, bind_id: u8) -> bool {
    forall|x: i32| #[trigger]
        h.vanjects.contains_key(x) == (g.vanjects.contains_key(x) && !goes(g.vanjects[x], bind_id))
            && (h.vanjects.contains_key(x) ==> h.vanjects[x] == g.vanjects[x])
}

/// Whether two games differ in nothing but objects, worlds and one player.
pub open spec fn but_for_player(g: GameModel, h: GameModel, k: int) -> bool {
    &&& h.id == g.id && h.config == g.config && h.removed_players == g.removed_players
    &&& h.players.len() == g.players.len()
    &&& forall|j: int|
        0 <= j < g.players.len() && j != k ==> #[trigger] h.players[j] == g.players[j]
}

/// Whether `ids` are the objects that go with a player, by id, each once.
pub open spec fn lists_the_gone(g: GameModel, bind_id: u8, ids: Seq<i32>) -> bool {
    &&& forall|i: int, j: int| 0 <= i < j < ids.len() ==> #[trigger] ids[i] < #[trigger] ids[j]
    &&& forall|x: i32| #[trigger]
        ids.contains(x) <==> g.vanjects.contains_key(x) && goes(g.vanjects[x], bind_id)
}

/// What the others are told of a player who leaves: of each object that goes
/// its id, the player's number and the object's time, then that the player is
/// in no world.
pub open spec fn farewells(g: GameModel, bind_id: u8, ids: Seq<i32>) -> Seq<PacketModel> {
    Seq::new(
        ids.len(),
        |i: int|
            packet_of(
                Action::DELETE_OBJECT,
                i32_bytes(ids[i]) + seq![bind_id] + i32_bytes(g.vanjects[ids[i]].time),
            ),
    ).push(packet_of(Action::PLAYERS_WORLD, seq![bind_id, 0u8]))
}

/// A player who leaves its world is in no world, and is otherwise as it was; the
/// game has all objects but those that go with the player. All others in the
/// game are told of each of these, once, by id, and then of the player; the
/// player itself and everybody outside the game are told nothing.
pub proof fn lemma_leave(s: ServerModel, client_id: ClientID) -> (ids: Seq<i32>)
    requires
        games_wf(s.games),
        leave_world_refusal(s, client_id) is None,
    ensures
        ({
            let g = game_of(s.games, client_id);
            let p = player_of(g, client_id);
            let k = player_at(g.players, client_id);
            let bind_id = p.bind->0.id;
            let after = leave_world_effect(s, client_id);
            let h = game_of(after.games, client_id);
            &&& only_its_game(s, after, client_id)
            &&& but_for_player(g, h, k) && h.worlds == g.worlds
            &&& h.players[k] == (PlayerModel { world: None, ..p })
            &&& cleared(g, h, bind_id)
            &&& lists_the_gone(g, bind_id, ids)
            &&& heard(
                s.clients,
                after.clients,
                others(g, client_id),
                farewells(g, bind_id, ids),
            )
        }),
{
    let g = game_of(s.games, client_id);
    let p = player_of(g, client_id);
    let bind_id = p.bind->0.id;
    lemma_game_of(s.games, client_id);
    lemma_player_of(g.players, client_id);
    lemma_game_left(g, client_id);
    let h = game_left(g, client_id);
    let changed = ServerModel { games: with_game(s.games, client_id, h), ..s };
    lemma_game_step(s.games, client_id, h);
    let packets = leave_packets(g, client_id);
    lemma_each_is_heard(changed, client_id, packets);
    lemma_told_each_keeps_games(changed, client_id, Recipients::AllBut(client_id), packets);
    lemma_same_connections(g, h, client_id);
    let set = leaving_ids(g, bind_id);
    lemma_len_subset(set, g.vanjects.dom());
    lemma_listing_exists(set, Order::ById);
    let ids = listing(set, Order::ById);
    assert forall|i: int, j: int| 0 <= i < j < ids.len() implies #[trigger] ids[i]
        < #[trigger] ids[j] by {
        assert(place(Order::ById, ids[i]) < place(Order::ById, ids[j]));
    }
    assert forall|x: i32| #[trigger] ids.contains(x) <==> g.vanjects.contains_key(x) && goes(
        g.vanjects[x],
        bind_id,
    ) by {
        assert(ids.contains(x) <==> set.contains(x));
    }
    assert forall|i: int| 0 <= i < ids.len() implies g.vanjects[#[trigger] ids[i]].id == ids[i] by {
        assert(ids.contains(ids[i]));
        assert(g.vanjects.contains_key(ids[i]));
    }
    assert(packets =~= farewells(g, bind_id, ids));
    ids
}

/// Why a player cannot leave, and when it can: it needs a number and a world to
/// leave.
pub proof fn lemma_who_may_leave(s: ServerModel, client_id: ClientID)
    ensures
        ({
            let p = player_of(game_of(s.games, client_id), client_id);
            let heeded = plays_somewhere(s, client_id);
            match leave_world_refusal(s, client_id) {
                None => heeded && p.bind is Some && p.world is Some,
                Some(LeaveWorldError::PlayerNotFound(c)) => c == client_id && !heeded,
                Some(LeaveWorldError::PlayerNotBind(c)) => c == client_id && heeded && p.bind
                    is None,
                Some(LeaveWorldError::WorldEmpty(c)) => c == client_id && heeded && p.bind is Some
                    && p.world is None,
            }
        }),
{
    lemma_who_is_meant(s, client_id);
}

/// Whether the player with the number `joining` is shown an object when it
/// enters a world: what lies about there, whoever owns it, itself included; and
/// of vangers and what is on board those that others own there.
pub open spec fn shown_to(v: VanjectModel, world_id: u8, joining: u8) -> bool {
    &&& world_of(v.id) == world_id
    &&& {
        ||| type_of(v.id) == NID::STUFF
        ||| type_of(v.id) == NID::VANGER && v.player_bind_id != joining
        ||| type_of(v.id) == NID::SLOT && v.player_bind_id != joining
        ||| type_of(v.id) == NID::DEVICE && v.player_bind_id != joining
        ||| type_of(v.id) == NID::SHELL && v.player_bind_id != joining
    }
}

/// Whether one object is shown before another: vangers come first, then slots,
/// devices, shells, and what lies about; within each, smaller ids.
pub open spec fn shown_before(a: i32, b: i32) -> bool {
    let (t, u) = (type_of(a), type_of(b));
    ||| t == u && a < b
    ||| t == NID::VANGER && (u == NID::SLOT || u == NID::DEVICE || u == NID::SHELL || u
        == NID::STUFF)
    ||| t == NID::SLOT && (u == NID::DEVICE || u == NID::SHELL || u == NID::STUFF)
    ||| t == NID::DEVICE && (u == NID::SHELL || u == NID::STUFF)
    ||| t == NID::SHELL && u == NID::STUFF
}

/// Whether `ids` are the objects that a player is shown when it enters a world,
/// in their order, each once.
pub open spec fn lists_the_shown(g: GameModel, world_id: u8, joining: u8, ids: Seq<i32>) -> bool {
    &&& forall|i: int, j: int|
        #![trigger ids[i], ids[j]]
        0 <= i < j < ids.len() ==> shown_before(ids[i], ids[j])
    &&& forall|x: i32| #[trigger]
        ids.contains(x) <==> g.vanjects.contains_key(x) && shown_to(
            g.vanjects[x],
            world_id,
            joining,
        )
}

/// What introduces objects, one after the other.
pub open spec fn introductions(g: GameModel, ids: Seq<i32>) -> Seq<PacketModel> {
    Seq::new(ids.len(), |i: int| introduction(g.vanjects[ids[i]]))
}

/// The snapshot of a world introduces exactly the objects that are shown to the
/// joining player, each once, in their order.
pub proof fn lemma_snapshot_shows(g: GameModel, world_id: u8, joining: u8) -> (ids: Seq<i32>)
    requires
        game_wf(g),
    ensures
        lists_the_shown(g, world_id, joining, ids),
        snapshot_packets(g, world_id, joining) == introductions(g, ids),
{
    let set = snapshot_ids(g, world_id, joining);
    lemma_len_subset(set, g.vanjects.dom());
    lemma_listing_exists(set, Order::Snapshot);
    let ids = listing(set, Order::Snapshot);
    assert forall|x: i32| #[trigger] ids.contains(x) <==> g.vanjects.contains_key(x) && shown_to(
        g.vanjects[x],
        world_id,
        joining,
    ) by {
        assert(ids.contains(x) <==> set.contains(x));
    }
    assert forall|i: int| 0 <= i < ids.len() implies g.vanjects[#[trigger] ids[i]].id == ids[i]
        && shown_to(g.vanjects[ids[i]], world_id, joining) by {
        assert(ids.contains(ids[i]));
        assert(g.vanjects.contains_key(ids[i]));
    }
    assert forall|i: int, j: int|
        #![trigger ids[i], ids[j]]
        0 <= i < j < ids.len() implies shown_before(ids[i], ids[j]) by {
        assert(place(Order::Snapshot, ids[i]) < place(Order::Snapshot, ids[j]));
    }
    assert forall|i: int| 0 <= i < ids.len() implies #[trigger] snapshot_packets(
        g,
        world_id,
        joining,
    )[i] == introduction(g.vanjects[ids[i]]) by {
        lemma_how_an_object_is_shown(0, g.vanjects[ids[i]]);
    }
    assert(snapshot_packets(g, world_id, joining) =~= introductions(g, ids));
    ids
}

/// A position that is accepted: encoding where the player is, and half the
/// height of its screen, gives the payload back, if the player is in a world;
/// nothing else changes, nobody is told, and out of all worlds nothing changes
/// at all.
pub proof fn lemma_position(s: ServerModel, data: Seq<u8>, client_id: ClientID)
    requires
        games_wf(s.games),
        set_position_refusal(s, data, client_id) is None,
    ensures
        ({
            let g = game_of(s.games, client_id);
            let k = player_at(g.players, client_id);
            let p = player_of(g, client_id);
            let after = set_position_effect(s, data, client_id);
            let h = game_of(after.games, client_id);
            let q = h.players[k];
            &&& only_its_game(s, after, client_id) && after.clients == s.clients
            &&& but_for_player(g, h, k) && h.worlds == g.worlds && h.vanjects == g.vanjects
            &&& p.world is None ==> q == p
            &&& p.world is Some ==> {
                &&& data == i16_bytes(q.pos.x) + i16_bytes(q.pos.y) + i16_bytes(
                    q.screen_y_half_size,
                )
                &&& q == (PlayerModel {
                    pos: q.pos,
                    screen_y_half_size: q.screen_y_half_size,
                    ..p
                })
            }
        }),
{
    let g = game_of(s.games, client_id);
    let p = player_of(g, client_id);
    lemma_game_of(s.games, client_id);
    lemma_player_of(g.players, client_id);
    let q = moved(p, data);
    lemma_player_change_keeps_wf(g, client_id, q);
    lemma_player_change_keeps_place(g, client_id, q);
    lemma_game_step(s.games, client_id, with_player(g, client_id, q));
    lemma_read_is_written(data, 0);
    lemma_read_is_written(data, 2);
    lemma_read_is_written(data, 4);
    assert(data =~= data.subrange(0, 2) + data.subrange(2, 4) + data.subrange(4, 6));
}

/// Why a position is turned down, and when it is not.
pub proof fn lemma_who_may_move(s: ServerModel, data: Seq<u8>, client_id: ClientID)
    ensures
        match set_position_refusal(s, data, client_id) {
            None => data.len() == 6 && plays_somewhere(s, client_id),
            Some(SetPositionError::InvalidPayloadSize { expected, actual }) => data.len() != 6
                && expected == 6 && actual == data.len() as usize,
            Some(SetPositionError::PlayerNotFound(c)) => c == client_id && data.len() == 6
                && !plays_somewhere(s, client_id),
        },
{
    lemma_who_is_meant(s, client_id);
}

} // verus!
