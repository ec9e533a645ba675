//! What becomes of the objects of a game.

use vstd::prelude::*;

use crate::bytes::{i16_bytes, i32_bytes, le_i32};
use crate::callback::create_object::{
    create_object_effect, create_object_refusal, game_created, lemma_game_created, replay_packets,
    CreateObjectError,
};
use crate::callback::delete_object::{
    delete_answer, delete_object_effect, delete_object_readable, delete_object_refusal,
    game_without, DeleteObjectError,
};
use crate::callback::update_object::{
    game_updated, update_object_effect, update_object_refusal, UpdateObjectError,
};
use crate::client::ClientID;
use crate::game::{lemma_player_of, player_at, player_of, GameModel};
use crate::games::{game_of, games_wf, has_game, lemma_game_of};
use crate::player::{Bind, PlayerModel};
use crate::protocol::{packet_of, Action, PacketModel};
use crate::server::{lemma_told_each_keeps_games, Recipients, ServerModel};
use crate::vanject::{
    created_object, lemma_field_ranges, object_bytes, pos_bytes, type_of, world_of, VanjectError,
    VanjectModel, NID,
};

use super::hearing::{
    heard, just, lemma_change_is_heard, lemma_each_is_heard, lemma_who_is_meant, only_its_game,
    others, others_in, plays,
};
use super::wire::{
    lemma_created_object_is_the_payload, lemma_how_an_end_is_told, lemma_how_an_object_is_shown,
    lemma_read_is_written, lemma_updated_object_is_the_payload,
};

verus! {

/// Whether some player of the server plays over the connection `client_id`.
pub open spec fn plays_somewhere(s: ServerModel, client_id: ClientID) -> bool {
    exists|j: int| 0 <= j < s.games.len() && plays((#[trigger] s.games[j]).1, client_id)
}

/// Whether two games have the same objects but for the one with the id `id`.
pub open spec fn other_objects_alike(g: GameModel, h: GameModel, id: i32) -> bool {
    forall|x: i32|
        x != id ==> {
            &&& #[trigger] h.vanjects.contains_key(x) == g.vanjects.contains_key(x)
            &&& g.vanjects.contains_key(x) ==> h.vanjects[x] == g.vanjects[x]
        }
}

/// Whether two games differ in nothing but their objects.
pub open spec fn but_for_objects(g: GameModel, h: GameModel) -> bool {
    &&& h.id == g.id && h.config == g.config
    &&& h.players == g.players && h.removed_players == g.removed_players
    &&& h.worlds == g.worlds
}

/// What a client that does not know an object is told of it: of an item its
/// state, no previous id and the object, of anything else the object.
pub open spec fn introduction(v: VanjectModel) -> PacketModel {
    if type_of(v.id) == NID::DEVICE {
        packet_of(Action::ITEM_STATE, seq![1u8, 0u8, 0u8, 0u8, 0u8] + object_bytes(v))
    } else if type_of(v.id) == NID::STUFF {
        packet_of(Action::ITEM_STATE, seq![2u8, 0u8, 0u8, 0u8, 0u8] + object_bytes(v))
    } else {
        packet_of(Action::UPDATE_OBJECT, object_bytes(v))
    }
}

/// An update that is accepted: encoding what is stored gives the payload back;
/// id and radius stay, the object belongs to the sender, and nothing else
/// changes. Each other player in the object's world, or in the game if the
/// object belongs to no world, is sent the stored object, once.
pub proof fn lemma_update(s: ServerModel, data: Seq<u8>, client_id: ClientID)
    requires
        games_wf(s.games),
        update_object_refusal(s, data, client_id) is None,
    ensures
        ({
            let id = le_i32(data, 0);
            let g = game_of(s.games, client_id);
            let after = update_object_effect(s, data, client_id);
            let h = game_of(after.games, client_id);
            let (v, u) = (g.vanjects[id], h.vanjects[id]);
            let told = seq![packet_of(Action::UPDATE_OBJECT, object_bytes(u))];
            &&& only_its_game(s, after, client_id)
            &&& but_for_objects(g, h) && other_objects_alike(g, h, id)
            &&& g.vanjects.contains_key(id) && h.vanjects.contains_key(id)
            &&& data.skip(4) == i32_bytes(u.time) + i16_bytes(u.pos.x) + i16_bytes(u.pos.y) + u.body
            &&& data.take(4) == i32_bytes(u.id)
            &&& u.radius == v.radius
            &&& player_of(g, client_id).bind == Some(Bind { id: u.player_bind_id })
            &&& id & 0x20_0000 == 0 ==> heard(
                s.clients,
                after.clients,
                others_in(g, client_id, world_of(id) as u8),
                told,
            )
            &&& id & 0x20_0000 != 0 ==> heard(
                s.clients,
                after.clients,
                others(g, client_id),
                told,
            )
        }),
{
    let id = le_i32(data, 0);
    let g = game_of(s.games, client_id);
    lemma_game_of(s.games, client_id);
    let h = game_updated(g, client_id, data);
    let u = h.vanjects[id];
    assert(g.vanjects.contains_key(id));
    assert(h.vanjects.dom() =~= g.vanjects.dom());
    lemma_updated_object_is_the_payload(g.vanjects[id], data);
    lemma_read_is_written(data, 0);
    assert(data.take(4) =~= data.subrange(0, 4));
    lemma_change_is_heard(
        s,
        client_id,
        h,
        world_of(id) as u8,
        packet_of(Action::UPDATE_OBJECT, object_bytes(u)),
    );
}

/// Why an update is turned down, and when it is not. What is in a world is
/// updated from within that world, and, unless it is fixed there, only by its
/// owner.
pub proof fn lemma_who_may_update(s: ServerModel, data: Seq<u8>, client_id: ClientID)
    ensures
        ({
            let id = le_i32(data, 0);
            let g = game_of(s.games, client_id);
            let p = player_of(g, client_id);
            let v = g.vanjects[id];
            let in_some_world = id & 0x20_0000 == 0;
            let known = data.len() >= 4 && plays_somewhere(s, client_id) && p.bind is Some
                && g.vanjects.contains_key(id);
            let at_hand = in_some_world ==> p.world is Some && p.world->0.id == world_of(id);
            let allowed = in_some_world ==> id & 0x10_0000 != 0 || v.player_bind_id
                == p.bind->0.id;
            match update_object_refusal(s, data, client_id) {
                None => known && at_hand && allowed && data.len() >= 12,
                Some(UpdateObjectError::SliceTooSmall) => data.len() < 4,
                Some(UpdateObjectError::PlayerNotFound(c)) => c == client_id && data.len() >= 4
                    && !plays_somewhere(s, client_id),
                Some(UpdateObjectError::PlayerNotBind(c)) => c == client_id && data.len() >= 4
                    && plays_somewhere(s, client_id) && p.bind is None,
                Some(UpdateObjectError::VanjectNotFound(x)) => x == id && data.len() >= 4
                    && plays_somewhere(s, client_id) && p.bind is Some && !g.vanjects.contains_key(
                    id,
                ),
                Some(UpdateObjectError::PlayerWorldEmpty(c)) => c == client_id && known
                    && in_some_world && p.world is None,
                Some(UpdateObjectError::WrongWorld(x, of_object, of_player)) => x == id && known
                    && in_some_world && p.world is Some && of_object == world_of(id) && of_player
                    == p.world->0.id && of_object != of_player,
                Some(UpdateObjectError::NotOwner(x, b)) => x == id && known && at_hand && !allowed
                    && b == p.bind->0.id,
                Some(UpdateObjectError::SliceToVanjectParse(e)) => known && at_hand && allowed && e
                    == VanjectError::SliceTooSmall(data.len() as usize) && data.len() < 12,
            }
        }),
{
    lemma_who_is_meant(s, client_id);
    lemma_field_ranges(le_i32(data, 0));
}

/// A new object that is taken in: encoding what is stored gives the payload
/// back, and the object belongs to the sender; no other object changes. Who
/// brings in its vanger is where the vanger is, and has the record that the
/// vanger came with, if that is complete.
pub proof fn lemma_new_object(s: ServerModel, data: Seq<u8>, client_id: ClientID)
    requires
        games_wf(s.games),
        create_object_refusal(s, data, client_id) is None,
        !game_of(s.games, client_id).vanjects.contains_key(le_i32(data, 0)),
    ensures
        ({
            let id = le_i32(data, 0);
            let g = game_of(s.games, client_id);
            let p = player_of(g, client_id);
            let k = player_at(g.players, client_id);
            let after = create_object_effect(s, data, client_id);
            let h = game_of(after.games, client_id);
            let v = h.vanjects[id];
            &&& only_its_game(s, after, client_id)
            &&& h.vanjects.contains_key(id) && other_objects_alike(g, h, id)
            &&& data == i32_bytes(v.id) + i32_bytes(v.time) + i16_bytes(v.pos.x) + i16_bytes(
                v.pos.y,
            ) + i16_bytes(v.radius) + v.body
            &&& p.bind == Some(Bind { id: v.player_bind_id })
            &&& type_of(id) != NID::VANGER ==> but_for_objects(g, h)
            &&& type_of(id) == NID::VANGER ==> {
                &&& h.id == g.id && h.config == g.config && h.worlds == g.worlds
                &&& h.removed_players == g.removed_players
                &&& h.players.len() == g.players.len()
                &&& forall|j: int| 0 <= j < g.players.len() && j != k ==> #[trigger] h.players[j]
                    == g.players[j]
                &&& h.players[k] == (PlayerModel {
                    pos: v.pos,
                    body: if data.len() >= 55 {
                        Some(data.subrange(14, 55))
                    } else {
                        p.body
                    },
                    ..p
                })
            }
        }),
{
    lemma_creation(s, data, client_id);
    let id = le_i32(data, 0);
    let g = game_of(s.games, client_id);
    let v = created_object(data);
    lemma_game_of(s.games, client_id);
    lemma_created_object_is_the_payload(data);
    lemma_player_of(g.players, client_id);
    if type_of(id) == NID::VANGER && data.len() >= 55 {
        assert(v.body.take(41) =~= data.subrange(14, 55));
    }
}

/// Of a new object that is taken in, each other player in the object's world,
/// or in the game if the object belongs to no world, is sent exactly one
/// packet, which introduces it; of a vanger without a complete record nobody
/// is told. A vanger is told of in the world that its id names.
pub proof fn lemma_new_object_is_told(s: ServerModel, data: Seq<u8>, client_id: ClientID)
    requires
        games_wf(s.games),
        create_object_refusal(s, data, client_id) is None,
        !game_of(s.games, client_id).vanjects.contains_key(le_i32(data, 0)),
    ensures
        ({
            let id = le_i32(data, 0);
            let g = game_of(s.games, client_id);
            let after = create_object_effect(s, data, client_id);
            let h = game_of(after.games, client_id);
            let told = seq![introduction(h.vanjects[id])];
            let vanger = type_of(id) == NID::VANGER;
            let here = others_in(g, client_id, world_of(id) as u8);
            &&& only_its_game(s, after, client_id)
            &&& vanger && data.len() < 55 ==> after.clients == s.clients
            &&& vanger && data.len() >= 55 ==> heard(s.clients, after.clients, here, told)
            &&& !vanger && id & 0x20_0000 == 0 ==> heard(s.clients, after.clients, here, told)
            &&& !vanger && id & 0x20_0000 != 0 ==> heard(
                s.clients,
                after.clients,
                others(g, client_id),
                told,
            )
        }),
{
    lemma_creation(s, data, client_id);
}

proof fn lemma_creation(s: ServerModel, data: Seq<u8>, client_id: ClientID)
    requires
        games_wf(s.games),
        create_object_refusal(s, data, client_id) is None,
        !game_of(s.games, client_id).vanjects.contains_key(le_i32(data, 0)),
    ensures
        ({
            let id = le_i32(data, 0);
            let g = game_of(s.games, client_id);
            let after = create_object_effect(s, data, client_id);
            let h = game_of(after.games, client_id);
            let told = seq![introduction(h.vanjects[id])];
            let vanger = type_of(id) == NID::VANGER;
            let here = others_in(g, client_id, world_of(id) as u8);
            &&& h == game_created(g, client_id, created_object(data))
            &&& only_its_game(s, after, client_id)
            &&& vanger && data.len() < 55 ==> after.clients == s.clients
            &&& vanger && data.len() >= 55 ==> heard(s.clients, after.clients, here, told)
            &&& !vanger && id & 0x20_0000 == 0 ==> heard(s.clients, after.clients, here, told)
            &&& !vanger && id & 0x20_0000 != 0 ==> heard(
                s.clients,
                after.clients,
                others(g, client_id),
                told,
            )
        }),
{
    let id = le_i32(data, 0);
    let g = game_of(s.games, client_id);
    let v = created_object(data);
    let h = game_created(g, client_id, v);
    lemma_game_of(s.games, client_id);
    lemma_game_created(g, client_id, v);
    lemma_player_of(g.players, client_id);
    let k = player_at(g.players, client_id);
    assert forall|j: int| 0 <= j < g.players.len() implies (#[trigger] g.players[j]).client_id
        == h.players[j].client_id && g.players[j].world == h.players[j].world by {
        if j != k {
            assert(h.players[j] == g.players[j]);
        }
    }
    lemma_how_an_object_is_shown(0, h.vanjects[id]);
    lemma_change_is_heard(s, client_id, h, world_of(id) as u8, introduction(h.vanjects[id]));
}

/// Who tries to create an object that is already there is introduced to it, as
/// it is there, and, if it is a vanger, told where it is; nobody else is told
/// anything, and nothing changes.
pub proof fn lemma_known_object(s: ServerModel, data: Seq<u8>, client_id: ClientID)
    requires
        games_wf(s.games),
        data.len() >= 14,
        has_game(s.games, client_id),
        game_of(s.games, client_id).vanjects.contains_key(le_i32(data, 0)),
    ensures
        create_object_refusal(s, data, client_id) is None,
        ({
            let v = game_of(s.games, client_id).vanjects[le_i32(data, 0)];
            let after = create_object_effect(s, data, client_id);
            let place = packet_of(
                Action::PLAYERS_POSITION,
                seq![v.player_bind_id] + i16_bytes(v.pos.x) + i16_bytes(v.pos.y),
            );
            &&& after.games == s.games
            &&& only_its_game(s, after, client_id)
            &&& heard(
                s.clients,
                after.clients,
                just(client_id),
                if type_of(le_i32(data, 0)) == NID::VANGER {
                    seq![introduction(v), place]
                } else {
                    seq![introduction(v)]
                },
            )
        }),
{
    let id = le_i32(data, 0);
    let g = game_of(s.games, client_id);
    lemma_game_of(s.games, client_id);
    let v = g.vanjects[id];
    assert(v.id == id);
    lemma_how_an_object_is_shown(0, v);
    lemma_each_is_heard(s, client_id, replay_packets(v));
    lemma_told_each_keeps_games(s, client_id, Recipients::Only(client_id), replay_packets(v));
    assert(seq![v.player_bind_id] + pos_bytes(v.pos) =~= seq![v.player_bind_id] + i16_bytes(v.pos.x)
        + i16_bytes(v.pos.y));
}

/// Why an object is not created, and when it is. An item is turned down where
/// the item that its body is linked to, with the second to the fifth byte, is
/// there; anything that is already there is never turned down.
pub proof fn lemma_who_may_create(s: ServerModel, data: Seq<u8>, client_id: ClientID)
    ensures
        ({
            let id = le_i32(data, 0);
            let g = game_of(s.games, client_id);
            let p = player_of(g, client_id);
            let linked = le_i32(data, 15);
            let item = |x: i32| type_of(x) == NID::STUFF || type_of(x) == NID::DEVICE;
            let doubled = item(id) && data.len() >= 19 && item(linked)
                && g.vanjects.contains_key(linked);
            let heeded = data.len() >= 14 && plays_somewhere(s, client_id);
            match create_object_refusal(s, data, client_id) {
                None => heeded && (g.vanjects.contains_key(id) || !doubled && p.bind is Some),
                Some(CreateObjectError::SliceToVanjectParse(e)) => data.len() < 14 && e
                    == VanjectError::SliceTooSmall(data.len() as usize),
                Some(CreateObjectError::PlayerNotFound(c)) => c == client_id && data.len() >= 14
                    && !plays_somewhere(s, client_id),
                Some(CreateObjectError::PairedItemAlreadyExists(x, y)) => x == id && y == linked
                    && heeded && doubled && !g.vanjects.contains_key(id),
                Some(CreateObjectError::PlayerNotBind(c)) => c == client_id && heeded && !doubled
                    && p.bind is None && !g.vanjects.contains_key(id),
            }
        }),
{
    lemma_who_is_meant(s, client_id);
    let v = created_object(data);
    if data.len() >= 19 {
        assert(v.body[1] == data[15] && v.body[2] == data[16] && v.body[3] == data[17] && v.body[4]
            == data[18]);
    }
}

/// A deletion that is accepted: the object is gone, and nothing else changes.
/// Each other player in the object's world, or in the game if the object
/// belongs to no world, is sent one packet: of an item its id, the four bytes
/// of its body that link it, and that it was deleted; of anything else, also
/// of what was not there, the deletion, with the sender's number behind the
/// id.
pub proof fn lemma_delete(s: ServerModel, data: Seq<u8>, client_id: ClientID)
    requires
        games_wf(s.games),
        delete_object_readable(s, data, client_id),
        delete_object_refusal(s, data, client_id) is None,
    ensures
        ({
            let id = le_i32(data, 0);
            let g = game_of(s.games, client_id);
            let v = g.vanjects[id];
            let after = delete_object_effect(s, data, client_id);
            let h = game_of(after.games, client_id);
            let item = g.vanjects.contains_key(id) && (type_of(id) == NID::STUFF || type_of(id)
                == NID::DEVICE);
            let link = if v.body.len() >= 5 {
                v.body.subrange(1, 5)
            } else {
                seq![0u8, 0u8, 0u8, 0u8]
            };
            let told = seq![
                if item {
                    packet_of(Action::ITEM_REMOVED, data.take(4) + link + seq![1u8])
                } else {
                    packet_of(
                        Action::DELETE_OBJECT,
                        data.take(4) + seq![player_of(g, client_id).bind->0.id] + data.skip(4),
                    )
                },
            ];
            &&& only_its_game(s, after, client_id)
            &&& but_for_objects(g, h) && other_objects_alike(g, h, id)
            &&& !h.vanjects.contains_key(id)
            &&& id & 0x20_0000 == 0 ==> heard(
                s.clients,
                after.clients,
                others_in(g, client_id, world_of(id) as u8),
                told,
            )
            &&& id & 0x20_0000 != 0 ==> heard(
                s.clients,
                after.clients,
                others(g, client_id),
                told,
            )
        }),
{
    let id = le_i32(data, 0);
    let g = game_of(s.games, client_id);
    lemma_game_of(s.games, client_id);
    let h = game_without(g, data);
    lemma_read_is_written(data, 0);
    assert(data.take(4) =~= data.subrange(0, 4));
    if g.vanjects.contains_key(id) {
        assert(g.vanjects[id].id == id);
        lemma_how_an_end_is_told(g.vanjects[id], 1);
    }
    lemma_change_is_heard(s, client_id, h, world_of(id) as u8, delete_answer(g, client_id, data));
}

/// Why a deletion is turned down, and when it is not. Only its owner deletes an
/// object; an item is not deleted by a payload that is marked, in its ninth
/// byte, as half of a transfer. What is not there can be deleted by anyone.
pub proof fn lemma_who_may_delete(s: ServerModel, data: Seq<u8>, client_id: ClientID)
    requires
        games_wf(s.games),
    ensures
        ({
            let id = le_i32(data, 0);
            let g = game_of(s.games, client_id);
            let p = player_of(g, client_id);
            let there = g.vanjects.contains_key(id);
            let own = there ==> g.vanjects[id].player_bind_id == p.bind->0.id;
            let half = there && (type_of(id) == NID::STUFF || type_of(id) == NID::DEVICE)
                && data.len() > 8 && data[8] == 1;
            match delete_object_refusal(s, data, client_id) {
                None => plays_somewhere(s, client_id) && p.bind is Some && own && !half,
                Some(DeleteObjectError::PlayerNotFound(c)) => c == client_id && !plays_somewhere(
                    s,
                    client_id,
                ),
                Some(DeleteObjectError::PlayerNotBind(c)) => c == client_id && plays_somewhere(
                    s,
                    client_id,
                ) && p.bind is None,
                Some(DeleteObjectError::NotOwner(x, b)) => x == id && plays_somewhere(s, client_id)
                    && p.bind is Some && b == p.bind->0.id && !own,
                Some(DeleteObjectError::LegacyItemTransferDelete(x)) => x == id && plays_somewhere(
                    s,
                    client_id,
                ) && p.bind is Some && own && half,
            }
        }),
{
    lemma_who_is_meant(s, client_id);
    let g = game_of(s.games, client_id);
    if has_game(s.games, client_id) {
        lemma_game_of(s.games, client_id);
        if g.vanjects.contains_key(le_i32(data, 0)) {
            assert(g.vanjects[le_i32(data, 0)].id == le_i32(data, 0));
        }
    }
}

/// A deletion can be read from eight bytes; four are enough where no more is
/// read: it is turned down, or it ends an item.
pub proof fn lemma_what_a_deletion_needs(s: ServerModel, data: Seq<u8>, client_id: ClientID)
    requires
        games_wf(s.games),
    ensures
        ({
            let id = le_i32(data, 0);
            let g = game_of(s.games, client_id);
            delete_object_readable(s, data, client_id) <==> {
                ||| data.len() >= 8 && plays_somewhere(s, client_id)
                ||| data.len() >= 4 && delete_object_refusal(s, data, client_id) is Some
                ||| data.len() >= 4 && g.vanjects.contains_key(id) && (type_of(id) == NID::STUFF
                    || type_of(id) == NID::DEVICE)
            }
        }),
{
    lemma_who_is_meant(s, client_id);
    let g = game_of(s.games, client_id);
    if has_game(s.games, client_id) {
        lemma_game_of(s.games, client_id);
        if g.vanjects.contains_key(le_i32(data, 0)) {
            assert(g.vanjects[le_i32(data, 0)].id == le_i32(data, 0));
        }
    }
}

} // verus!
