//! What becomes of items: they lie in a world or are in a hold, never both.

use vstd::prelude::*;

use crate::bytes::{i16_bytes, i32_bytes, le_i32};
use crate::callback::item_transfer::{
    item_transfer_effect, item_transfer_refusal, transfer_in, transferred, ItemTransferError,
};
use crate::client::ClientID;
use crate::game::player_of;
use crate::games::{game_of, games_wf, lemma_game_of, lemma_game_step};
use crate::player::Bind;
use crate::protocol::{packet_of, Action};
use crate::server::ServerModel;
use crate::vanject::{
    counter_of, lemma_field_ranges, object_bytes, station_of, type_of, world_of, NID,
};

use super::hearing::{heard, lemma_change_is_heard, lemma_who_is_meant, only_its_game, others_in};
use super::objects::{but_for_objects, plays_somewhere};
use super::wire::{
    lemma_created_object_is_the_payload, lemma_how_an_object_is_shown, lemma_read_is_written,
};

verus! {

/// A transfer that is accepted: the old object, which the second to the fifth
/// byte of the payload name, is gone; the new one is there, exactly as the
/// payload describes it from its eleventh byte on, and belongs to the sender;
/// nothing else changes. Each other player in the world of the new object is
/// sent one packet, with the state of the item, the old id and the new object.
pub proof fn lemma_transfer(s: ServerModel, data: Seq<u8>, client_id: ClientID)
    requires
        games_wf(s.games),
        item_transfer_refusal(s, data, client_id) is None,
    ensures
        ({
            let (old_id, new_id) = (le_i32(data, 1), le_i32(data, 10));
            let g = game_of(s.games, client_id);
            let after = item_transfer_effect(s, data, client_id);
            let h = game_of(after.games, client_id);
            let v = h.vanjects[new_id];
            let state = if type_of(new_id) == NID::DEVICE { 1u8 } else { 2u8 };
            &&& only_its_game(s, after, client_id)
            &&& but_for_objects(g, h)
            &&& g.vanjects.contains_key(old_id) && !h.vanjects.contains_key(old_id)
            &&& !g.vanjects.contains_key(new_id) && h.vanjects.contains_key(new_id)
            &&& forall|x: i32|
                x != old_id && x != new_id ==> {
                    &&& #[trigger] h.vanjects.contains_key(x) == g.vanjects.contains_key(x)
                    &&& g.vanjects.contains_key(x) ==> h.vanjects[x] == g.vanjects[x]
                }
            &&& data.skip(10) == i32_bytes(v.id) + i32_bytes(v.time) + i16_bytes(v.pos.x)
                + i16_bytes(v.pos.y) + i16_bytes(v.radius) + v.body
            &&& player_of(g, client_id).bind == Some(Bind { id: v.player_bind_id })
            &&& heard(
                s.clients,
                after.clients,
                others_in(g, client_id, world_of(new_id) as u8),
                seq![
                    packet_of(
                        Action::ITEM_STATE,
                        seq![state] + data.subrange(1, 5) + object_bytes(v),
                    ),
                ],
            )
        }),
{
    let t = transfer_in(data);
    let rest = data.skip(10);
    let g = game_of(s.games, client_id);
    lemma_game_of(s.games, client_id);
    lemma_created_object_is_the_payload(rest);
    lemma_read_is_written(data, 1);
    assert(rest[0] == data[10] && rest[1] == data[11] && rest[2] == data[12] && rest[3]
        == data[13]);
    assert(t.new_vanject.id == le_i32(data, 10));
    let h = transferred(g, client_id, t);
    let v = h.vanjects[t.new_vanject.id];
    lemma_how_an_object_is_shown(t.old_id, v);
    let state = if type_of(t.new_vanject.id) == NID::DEVICE { 1u8 } else { 2u8 };
    lemma_change_is_heard(
        s,
        client_id,
        h,
        world_of(t.new_vanject.id) as u8,
        packet_of(Action::ITEM_STATE, seq![state] + data.subrange(1, 5) + object_bytes(v)),
    );
}

/// Why a transfer is turned down, and when it is not. What is picked up lies in
/// the world before and is in a hold after, what is dropped the other way
/// round; both ids differ only in the type, the new object's body names the old
/// id in its second to fifth byte, and the tenth byte of the payload is 1.
/// Whoever is in the world picks up; only its owner drops.
pub proof fn lemma_who_may_transfer(s: ServerModel, data: Seq<u8>, client_id: ClientID)
    ensures
        ({
            let kind = data[0];
            let (old_id, new_id, linked) = (le_i32(data, 1), le_i32(data, 10), le_i32(data, 25));
            let (old_type, new_type) = (type_of(old_id), type_of(new_id));
            let g = game_of(s.games, client_id);
            let p = player_of(g, client_id);
            let read = data.len() >= 24 && (kind == 1 || kind == 2);
            let pickup = kind == 1 && old_type == NID::STUFF && new_type == NID::DEVICE;
            let drop = kind == 2 && old_type == NID::DEVICE && new_type == NID::STUFF;
            let typed = read && (pickup || drop);
            let paired = typed && station_of(old_id) == station_of(new_id) && world_of(old_id)
                == world_of(new_id) && counter_of(old_id) == counter_of(new_id);
            let tied = paired && data.len() >= 29 && linked == old_id;
            let sound = tied && data[9] == 1;
            let heeded = sound && plays_somewhere(s, client_id);
            let placed = heeded && p.bind is Some && p.world is Some;
            let free = placed && !g.vanjects.contains_key(new_id);
            let there = free && g.vanjects.contains_key(old_id);
            let near = there && world_of(old_id) == p.world->0.id;
            let own = g.vanjects[old_id].player_bind_id == p.bind->0.id;
            match item_transfer_refusal(s, data, client_id) {
                None => near && (kind == 2 ==> own),
                Some(ItemTransferError::PacketTooSmall(n)) => n == data.len() as usize
                    && data.len() < 24,
                Some(ItemTransferError::InvalidKind(k)) => k == kind && data.len() >= 24 && !read,
                Some(ItemTransferError::SliceToVanjectParse(_)) => false,
                Some(ItemTransferError::TypeMismatch(k, a, b)) => k == kind && a == old_type && b
                    == new_type && read && !typed,
                Some(ItemTransferError::ItemIdPairMismatch(a, b)) => a == old_id && b == new_id
                    && typed && !paired,
                Some(ItemTransferError::NewItemBodyTooSmall) => paired && data.len() < 29,
                Some(ItemTransferError::LinkedIdMismatch(a, b)) => a == old_id && b == linked
                    && paired && data.len() >= 29 && a != b,
                Some(ItemTransferError::InvalidDeleteMarker(m)) => m == data[9] && tied && m != 1,
                Some(ItemTransferError::PlayerNotFound(c)) => c == client_id && sound
                    && !plays_somewhere(s, client_id),
                Some(ItemTransferError::PlayerNotBind(c)) => c == client_id && heeded && p.bind
                    is None,
                Some(ItemTransferError::PlayerWorldEmpty(c)) => c == client_id && heeded && p.bind
                    is Some && p.world is None,
                Some(ItemTransferError::NewItemAlreadyExists(x)) => x == new_id && placed
                    && g.vanjects.contains_key(new_id),
                Some(ItemTransferError::OldItemNotFound(x)) => x == old_id && free
                    && !g.vanjects.contains_key(old_id),
                Some(ItemTransferError::WrongWorld(x, a, b)) => x == old_id && there && a
                    == world_of(old_id) && b == p.world->0.id && a != b,
                Some(ItemTransferError::NotOwner(x, b)) => x == old_id && near && kind == 2 && b
                    == p.bind->0.id && !own,
            }
        }),
{
    lemma_who_is_meant(s, client_id);
    let rest = data.skip(10);
    lemma_field_ranges(le_i32(data, 1));
    lemma_field_ranges(le_i32(data, 10));
    if data.len() >= 24 {
        assert(rest[0] == data[10] && rest[1] == data[11] && rest[2] == data[12] && rest[3]
            == data[13]);
    }
    if data.len() >= 29 {
        let body = rest.skip(14);
        assert(body[1] == data[25] && body[2] == data[26] && body[3] == data[27] && body[4]
            == data[28]);
    }
}

/// Picking an item up and dropping it under its old id brings back the objects
/// that were there before; the dropped one is as the second payload describes
/// it.
pub proof fn lemma_there_and_back(
    s: ServerModel,
    pickup: Seq<u8>,
    drop: Seq<u8>,
    client_id: ClientID,
)
    requires
        games_wf(s.games),
        item_transfer_refusal(s, pickup, client_id) is None,
        ({
            let once = item_transfer_effect(s, pickup, client_id);
            item_transfer_refusal(once, drop, client_id) is None
        }),
        le_i32(drop, 1) == le_i32(pickup, 10),
        le_i32(drop, 10) == le_i32(pickup, 1),
    ensures
        ({
            let id = le_i32(pickup, 1);
            let once = item_transfer_effect(s, pickup, client_id);
            let twice = item_transfer_effect(once, drop, client_id);
            let g = game_of(s.games, client_id);
            let h = game_of(twice.games, client_id);
            let v = h.vanjects[id];
            &&& h.vanjects.dom() == g.vanjects.dom()
            &&& forall|x: i32| x != id && g.vanjects.contains_key(x) ==> #[trigger] h.vanjects[x]
                == g.vanjects[x]
            &&& drop.skip(10) == i32_bytes(v.id) + i32_bytes(v.time) + i16_bytes(v.pos.x)
                + i16_bytes(v.pos.y) + i16_bytes(v.radius) + v.body
        }),
{
    lemma_transfer(s, pickup, client_id);
    let once = item_transfer_effect(s, pickup, client_id);
    lemma_game_of(s.games, client_id);
    let t = transfer_in(pickup);
    let g = game_of(s.games, client_id);
    lemma_game_step(s.games, client_id, transferred(g, client_id, t));
    lemma_transfer(once, drop, client_id);
    let h = game_of(item_transfer_effect(once, drop, client_id).games, client_id);
    assert(h.vanjects.dom() =~= g.vanjects.dom()) by {
        assert forall|x: i32| h.vanjects.contains_key(x) == g.vanjects.contains_key(x) by {}
    }
}

} // verus!
