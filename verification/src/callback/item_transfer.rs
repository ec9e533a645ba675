//! `ITEM_TRANSFER`: an item changes between lying in a world and being in a
//! player's hold.
//!
//! An item in a world is one object, the same item in a hold another; the two
//! ids differ only in the type. A transfer names the old object and describes
//! the new one, and replaces one by the other in a single step.

use std::collections::HashMap;
use vstd::prelude::*;

use crate::bytes::{copy_range, i32_bytes, le_i32, push_i32, push_tail, read_i32};
use crate::client::ClientID;
use crate::game::{
    game_wf, has_player, lemma_player_of, lemma_vanjects_insert, lemma_vanjects_remove, player_of,
    vanject_models, Game, GameModel,
};
use crate::games::{game_of, has_game, lemma_game_of, lemma_game_step, with_game};
use crate::protocol::{packet_of, Action, Packet, PacketModel};
use crate::server::{told_world, Server, ServerModel};
use crate::vanject::{
    counter_of, created_object, get_vanject_type, lemma_fields_make_the_id, object_bytes, station_of, type_of, world_of,
    DecodedVanjectId, Vanject, VanjectError, VanjectModel, CREATE_HEADER_SIZE, NID,
};

use super::{OnUpdateError, OnUpdateOk};

verus! {

broadcast use vstd::std_specs::hash::group_hash_axioms;

/// The kind of a transfer that takes an item out of a world.
pub const ITEM_TRANSFER_PICKUP: u8 = 1;

/// The kind of a transfer that puts an item into a world.
pub const ITEM_TRANSFER_DROP: u8 = 2;

/// How many bytes come before the new object in a transfer.
pub const ITEM_TRANSFER_HEADER_SIZE: usize = 10;

/// The state of an item that is in a hold.
pub const ITEM_STATE_IN_INVENTORY: u8 = 1;

/// The state of an item that lies in a world.
pub const ITEM_STATE_IN_WORLD: u8 = 2;

/// The reason for the end of an item that was deleted.
pub const ITEM_REMOVED_REASON_DELETE: u8 = 1;

/// Why a transfer was turned down.
#[derive(Clone, Copy, Debug, PartialEq, Eq, Structural)]
pub enum ItemTransferError {
    /// The packet is too small: so many bytes.
    PacketTooSmall(usize),
    /// There is no such kind of transfer.
    InvalidKind(u8),
    /// The new object cannot be read.
    SliceToVanjectParse(VanjectError),
    /// The client is in no game.
    PlayerNotFound(ClientID),
    /// The player has no number in its game.
    PlayerNotBind(ClientID),
    /// The player is out of all worlds.
    PlayerWorldEmpty(ClientID),
    /// The types do not fit the kind: kind, old type, new type.
    TypeMismatch(u8, i32, i32),
    /// The new object is not linked to the old one: old id, linked id.
    LinkedIdMismatch(i32, i32),
    /// The new object has no room for a linked id.
    NewItemBodyTooSmall,
    /// The mark for the deletion of the old object is not 1.
    InvalidDeleteMarker(u8),
    /// The ids are not those of one item: old id, new id.
    ItemIdPairMismatch(i32, i32),
    /// There is no such old object.
    OldItemNotFound(i32),
    /// There already is such a new object.
    NewItemAlreadyExists(i32),
    /// The object belongs to another player: id, the player's number.
    NotOwner(i32, u8),
    /// The object belongs to another world than the player is in: id, the
    /// world of the object, the world of the player.
    WrongWorld(i32, u8, u8),
}

/// Whether objects of a type are items.
pub open spec fn item_type(vanject_type: i32) -> bool {
    vanject_type == NID::STUFF || vanject_type == NID::DEVICE
}

/// Whether an object is an item.
pub open spec fn is_item(v: VanjectModel) -> bool {
    item_type(type_of(v.id))
}

/// The state that the clients are told of an object.
pub open spec fn item_state(v: VanjectModel) -> u8 {
    if type_of(v.id) == NID::DEVICE {
        ITEM_STATE_IN_INVENTORY
    } else if type_of(v.id) == NID::STUFF {
        ITEM_STATE_IN_WORLD
    } else {
        0
    }
}

/// The id that an item is linked to: the second to the fifth byte of its body.
pub open spec fn linked_id(v: VanjectModel) -> Option<i32> {
    if v.body.len() < 5 {
        None
    } else {
        Some(le_i32(v.body, 1))
    }
}

/// What the clients are told of an item that took the place of `previous_id`.
pub open spec fn state_packet(previous_id: i32, v: VanjectModel) -> PacketModel {
    packet_of(
        Action::ITEM_STATE,
        seq![item_state(v)] + i32_bytes(previous_id) + object_bytes(v),
    )
}

/// What a client that does not know an object is told of it.
pub open spec fn shown_packet(v: VanjectModel) -> PacketModel {
    if is_item(v) {
        state_packet(0, v)
    } else {
        packet_of(Action::UPDATE_OBJECT, object_bytes(v))
    }
}

/// What the clients are told of an item that is no more.
pub open spec fn removed_packet(v: VanjectModel, reason: u8) -> PacketModel {
    let paired_id = match linked_id(v) {
        Some(id) => id,
        None => 0,
    };
    packet_of(Action::ITEM_REMOVED, i32_bytes(v.id) + i32_bytes(paired_id) + seq![reason])
}

/// The object among `vanjects` that an item is linked to, if it is there and
/// an item.
pub open spec fn paired_id(v: VanjectModel, vanjects: Map<i32, VanjectModel>) -> Option<i32> {
    match linked_id(v) {
        Some(id) => if item_type(type_of(id)) && vanjects.contains_key(id) {
            Some(id)
        } else {
            None
        },
        None => None,
    }
}

/// The packet for an item that took the place of `previous_id`.
pub fn item_state_packet(previous_id: i32, vanject: &Vanject) -> (p: Packet)
    ensures
        p@ == state_packet(previous_id, vanject@),
{
    let mut data: Vec<u8> = Vec::new();
    data.push(item_state_for_vanject(vanject));
    push_i32(&mut data, previous_id);
    let bytes = vanject.to_vangers_byte();
    push_tail(&mut data, &bytes, 0);
    assert(bytes@.skip(0) =~= bytes@);
    assert(data@ =~= seq![item_state(vanject@)] + i32_bytes(previous_id) + object_bytes(vanject@));
    Packet::new(Action::ITEM_STATE, &data)
}

/// The packet about `vanject` for a client that does not know it.
pub fn object_packet(vanject: &Vanject) -> (p: Packet)
    ensures
        p@ == shown_packet(vanject@),
{
    if is_item_vanject(vanject) {
        item_state_packet(0, vanject)
    } else {
        let bytes = vanject.to_vangers_byte();
        Packet::new(Action::UPDATE_OBJECT, &bytes)
    }
}

/// The packet for an item that is no more.
pub fn item_removed_packet(vanject: &Vanject, reason: u8) -> (p: Packet)
    ensures
        p@ == removed_packet(vanject@, reason),
{
    let paired_id: i32 = match item_linked_id(vanject) {
        Some(id) => id,
        None => 0,
    };
    let mut data: Vec<u8> = Vec::new();
    push_i32(&mut data, vanject.id);
    push_i32(&mut data, paired_id);
    data.push(reason);
    assert(data@ =~= i32_bytes(vanject.id) + i32_bytes(paired_id) + seq![reason]);
    Packet::new(Action::ITEM_REMOVED, &data)
}

/// Whether objects of a type are items.
pub fn is_item_type(vanject_type: i32) -> (r: bool)
    ensures
        r == item_type(vanject_type),
{
    vanject_type == NID::STUFF || vanject_type == NID::DEVICE
}

/// Whether an object is an item.
pub fn is_item_vanject(vanject: &Vanject) -> (r: bool)
    ensures
        r == is_item(vanject@),
{
    is_item_type(vanject.get_type())
}

/// The id that an item is linked to.
pub fn item_linked_id(vanject: &Vanject) -> (r: Option<i32>)
    ensures
        r == linked_id(vanject@),
{
    if vanject.body.len() < 5 {
        return None;
    }
    Some(read_i32(&vanject.body, 1))
}

/// The object among `vanjects` that an item is linked to, if it is there and
/// an item.
pub fn item_has_paired_vanject(vanject: &Vanject, vanjects: &HashMap<i32, Vanject>) -> (r: Option<
    i32,
>)
    ensures
        r == paired_id(vanject@, vanject_models(vanjects@)),
{
    match item_linked_id(vanject) {
        Some(linked_id) => if is_item_type(get_vanject_type(linked_id)) && vanjects.contains_key(
            &linked_id,
        ) {
            Some(linked_id)
        } else {
            None
        },
        None => None,
    }
}

/// The state that the clients are told of an object.
pub fn item_state_for_vanject(vanject: &Vanject) -> (r: u8)
    ensures
        r == item_state(vanject@),
{
    let vanject_type = vanject.get_type();
    if vanject_type == NID::DEVICE {
        ITEM_STATE_IN_INVENTORY
    } else if vanject_type == NID::STUFF {
        ITEM_STATE_IN_WORLD
    } else {
        0
    }
}

/// A transfer: which object goes and which one comes.
pub struct ItemTransfer {
    pub kind: u8,
    pub old_id: i32,
    pub delete_body: u8,
    pub new_vanject: Vanject,
}

/// The value of an [`ItemTransfer`].
#[verifier::ext_equal]
pub struct TransferModel {
    pub kind: u8,
    pub old_id: i32,
    pub delete_body: u8,
    pub new_vanject: VanjectModel,
}

impl View for ItemTransfer {
    type V = TransferModel;

    open spec fn view(&self) -> TransferModel {
        TransferModel {
            kind: self.kind,
            old_id: self.old_id,
            delete_body: self.delete_body,
            new_vanject: self.new_vanject@,
        }
    }
}

/// The transfer that a payload describes: kind, old id, time, mark, new
/// object.
pub open spec fn transfer_in(data: Seq<u8>) -> TransferModel {
    TransferModel {
        kind: data[0],
        old_id: le_i32(data, 1),
        delete_body: data[9],
        new_vanject: created_object(data.skip(ITEM_TRANSFER_HEADER_SIZE as int)),
    }
}

/// Why a payload describes no transfer at all.
pub open spec fn unreadable(data: Seq<u8>) -> Option<ItemTransferError> {
    if data.len() < ITEM_TRANSFER_HEADER_SIZE + CREATE_HEADER_SIZE {
        Some(ItemTransferError::PacketTooSmall(data.len() as usize))
    } else if data[0] != ITEM_TRANSFER_PICKUP && data[0] != ITEM_TRANSFER_DROP {
        Some(ItemTransferError::InvalidKind(data[0]))
    } else {
        None
    }
}

/// Whether the types fit the kind: what is picked up lies in a world before
/// and is in a hold after, what is dropped the other way round.
pub open spec fn types_fit(t: TransferModel) -> bool {
    let (old_type, new_type) = (type_of(t.old_id), type_of(t.new_vanject.id));
    ||| t.kind == ITEM_TRANSFER_PICKUP && old_type == NID::STUFF && new_type == NID::DEVICE
    ||| t.kind == ITEM_TRANSFER_DROP && old_type == NID::DEVICE && new_type == NID::STUFF
}

/// Whether both ids are those of one item.
pub open spec fn ids_pair(t: TransferModel) -> bool {
    &&& station_of(t.old_id) == station_of(t.new_vanject.id)
    &&& world_of(t.old_id) == world_of(t.new_vanject.id)
    &&& counter_of(t.old_id) == counter_of(t.new_vanject.id)
}

/// What is wrong with the link of the new object to the old one.
pub open spec fn link_defect(t: TransferModel) -> Option<ItemTransferError> {
    match linked_id(t.new_vanject) {
        None => Some(ItemTransferError::NewItemBodyTooSmall),
        Some(id) => if id != t.old_id {
            Some(ItemTransferError::LinkedIdMismatch(t.old_id, id))
        } else {
            None
        },
    }
}

/// Why a payload is turned down whatever the game.
pub open spec fn transfer_defect(data: Seq<u8>) -> Option<ItemTransferError> {
    let t = transfer_in(data);
    if unreadable(data) is Some {
        unreadable(data)
    } else if !types_fit(t) {
        Some(
            ItemTransferError::TypeMismatch(t.kind, type_of(t.old_id), type_of(t.new_vanject.id)),
        )
    } else if !ids_pair(t) {
        Some(ItemTransferError::ItemIdPairMismatch(t.old_id, t.new_vanject.id))
    } else if link_defect(t) is Some {
        link_defect(t)
    } else if t.delete_body != 1 {
        Some(ItemTransferError::InvalidDeleteMarker(t.delete_body))
    } else {
        None
    }
}

/// Reads a transfer.
pub fn parse_item_transfer(packet: &Packet) -> (r: Result<ItemTransfer, ItemTransferError>)
    ensures
        match unreadable(packet.data@) {
            Some(e) => r == Err::<ItemTransfer, ItemTransferError>(e),
            None => r is Ok && r->Ok_0@ == transfer_in(packet.data@),
        },
{
    let data = &packet.data;
    if data.len() < ITEM_TRANSFER_HEADER_SIZE + CREATE_HEADER_SIZE {
        return Err(ItemTransferError::PacketTooSmall(data.len()));
    }
    let kind: u8 = data[0];
    if kind != ITEM_TRANSFER_PICKUP && kind != ITEM_TRANSFER_DROP {
        return Err(ItemTransferError::InvalidKind(kind));
    }
    let old_id: i32 = read_i32(data, 1);
    let delete_body: u8 = data[9];
    let rest = copy_range(data, ITEM_TRANSFER_HEADER_SIZE, data.len());
    assert(rest@ =~= data@.skip(ITEM_TRANSFER_HEADER_SIZE as int));
    match Vanject::create_from_slice(&rest) {
        Ok(new_vanject) => Ok(ItemTransfer { kind, old_id, delete_body, new_vanject }),
        Err(err) => Err(ItemTransferError::SliceToVanjectParse(err)),
    }
}

/// Checks that the types fit the kind of the transfer.
pub fn validate_transfer_types(transfer: &ItemTransfer) -> (r: Result<(), ItemTransferError>)
    ensures
        types_fit(transfer@) ==> r is Ok,
        !types_fit(transfer@) ==> r == Err::<(), ItemTransferError>(
            ItemTransferError::TypeMismatch(
                transfer.kind,
                type_of(transfer.old_id),
                type_of(transfer.new_vanject.id),
            ),
        ),
{
    let old_type = get_vanject_type(transfer.old_id);
    let new_type = transfer.new_vanject.get_type();
    if transfer.kind == ITEM_TRANSFER_PICKUP && old_type == NID::STUFF && new_type == NID::DEVICE {
        Ok(())
    } else if transfer.kind == ITEM_TRANSFER_DROP && old_type == NID::DEVICE && new_type
        == NID::STUFF {
        Ok(())
    } else {
        Err(ItemTransferError::TypeMismatch(transfer.kind, old_type, new_type))
    }
}

/// Checks that both ids are those of one item.
pub fn validate_transfer_id_pair(transfer: &ItemTransfer) -> (r: Result<(), ItemTransferError>)
    ensures
        ids_pair(transfer@) ==> r is Ok,
        !ids_pair(transfer@) ==> r == Err::<(), ItemTransferError>(
            ItemTransferError::ItemIdPairMismatch(transfer.old_id, transfer.new_vanject.id),
        ),
{
    let old_decoded = DecodedVanjectId::new(transfer.old_id);
    let new_decoded = DecodedVanjectId::new(transfer.new_vanject.id);
    if old_decoded.station != new_decoded.station || old_decoded.world != new_decoded.world
        || old_decoded.counter != new_decoded.counter {
        return Err(
            ItemTransferError::ItemIdPairMismatch(transfer.old_id, transfer.new_vanject.id),
        );
    }
    Ok(())
}

/// Checks that the new object is linked to the old one.
pub fn validate_linked_item_id(transfer: &ItemTransfer) -> (r: Result<(), ItemTransferError>)
    ensures
        match link_defect(transfer@) {
            Some(e) => r == Err::<(), ItemTransferError>(e),
            None => r is Ok,
        },
{
    match linked_item_id(&transfer.new_vanject) {
        Ok(linked_id) => if linked_id != transfer.old_id {
            Err(ItemTransferError::LinkedIdMismatch(transfer.old_id, linked_id))
        } else {
            Ok(())
        },
        Err(err) => Err(err),
    }
}

/// Checks the mark for the deletion of the old object.
pub fn validate_delete_marker(transfer: &ItemTransfer) -> (r: Result<(), ItemTransferError>)
    ensures
        transfer.delete_body == 1 ==> r is Ok,
        transfer.delete_body != 1 ==> r == Err::<(), ItemTransferError>(
            ItemTransferError::InvalidDeleteMarker(transfer.delete_body),
        ),
{
    if transfer.delete_body != 1 {
        return Err(ItemTransferError::InvalidDeleteMarker(transfer.delete_body));
    }
    Ok(())
}

/// The id that a new item is linked to.
pub fn linked_item_id(vanject: &Vanject) -> (r: Result<i32, ItemTransferError>)
    ensures
        match linked_id(vanject@) {
            Some(id) => r == Ok::<i32, ItemTransferError>(id),
            None => r == Err::<i32, ItemTransferError>(ItemTransferError::NewItemBodyTooSmall),
        },
{
    match item_linked_id(vanject) {
        Some(id) => Ok(id),
        None => Err(ItemTransferError::NewItemBodyTooSmall),
    }
}

/// Why a game turns down a transfer by the player over `client_id`.
pub open spec fn transfer_refusal(g: GameModel, client_id: ClientID, t: TransferModel) -> Option<
    ItemTransferError,
> {
    let p = player_of(g, client_id);
    let new_id = t.new_vanject.id;
    if p.bind is None {
        Some(ItemTransferError::PlayerNotBind(client_id))
    } else if p.world is None {
        Some(ItemTransferError::PlayerWorldEmpty(client_id))
    } else if g.vanjects.contains_key(new_id) {
        Some(ItemTransferError::NewItemAlreadyExists(new_id))
    } else if !g.vanjects.contains_key(t.old_id) {
        Some(ItemTransferError::OldItemNotFound(t.old_id))
    } else if world_of(t.old_id) != p.world->0.id {
        Some(ItemTransferError::WrongWorld(t.old_id, world_of(t.old_id) as u8, p.world->0.id))
    } else if world_of(new_id) != p.world->0.id {
        Some(ItemTransferError::WrongWorld(new_id, world_of(new_id) as u8, p.world->0.id))
    } else if t.kind == ITEM_TRANSFER_DROP && g.vanjects[t.old_id].player_bind_id != p.bind->0.id {
        Some(ItemTransferError::NotOwner(t.old_id, p.bind->0.id))
    } else {
        None
    }
}

/// The new object of a transfer by the player over `client_id`, who owns it
/// from now on.
pub open spec fn arrived(g: GameModel, client_id: ClientID, t: TransferModel) -> VanjectModel {
    VanjectModel { player_bind_id: player_of(g, client_id).bind->0.id, ..t.new_vanject }
}

/// The game after a transfer: the old object is gone, the new one there.
pub open spec fn transferred(g: GameModel, client_id: ClientID, t: TransferModel) -> GameModel {
    let v = arrived(g, client_id, t);
    GameModel { vanjects: g.vanjects.remove(t.old_id).insert(v.id, v), ..g }
}

impl Game {
    /// Replaces the old object of `transfer` by the new one, unless something
    /// speaks against it; the result is what the players in the world of the
    /// new object are told.
    pub fn transfer_item(&mut self, client_id: ClientID, transfer: ItemTransfer) -> (r: Result<
        Packet,
        ItemTransferError,
    >)
        requires
            game_wf(old(self)@),
            has_player(old(self)@.players, client_id),
        ensures
            game_wf(final(self)@),
            match transfer_refusal(old(self)@, client_id, transfer@) {
                Some(e) => r == Err::<Packet, ItemTransferError>(e) && final(self)@ == old(self)@,
                None => {
                    &&& final(self)@ == transferred(old(self)@, client_id, transfer@)
                    &&& r is Ok
                    &&& r->Ok_0@ == state_packet(
                        transfer.old_id,
                        arrived(old(self)@, client_id, transfer@),
                    )
                },
            },
    {
        let ghost g = self@;
        proof {
            lemma_player_of(g.players, client_id);
        }
        let (bind, world) = match self.get_player(client_id) {
            Some(player) => (player.bind, player.world),
            None => (None, None),
        };
        let player_bind_id: u8 = match bind {
            Some(bind) => bind.id(),
            None => {
                return Err(ItemTransferError::PlayerNotBind(client_id));
            },
        };
        let player_world_id: u8 = match world {
            Some(world) => world.id,
            None => {
                return Err(ItemTransferError::PlayerWorldEmpty(client_id));
            },
        };
        let new_id: i32 = transfer.new_vanject.id;
        if self.vanjects.contains_key(&new_id) {
            return Err(ItemTransferError::NewItemAlreadyExists(new_id));
        }
        let (old_world, owner) = match self.vanjects.get(&transfer.old_id) {
            Some(vanject) => {
                assert(g.vanjects.contains_key(transfer.old_id));
                (vanject.get_world() as u8, vanject.player_bind_id)
            },
            None => {
                return Err(ItemTransferError::OldItemNotFound(transfer.old_id));
            },
        };
        assert(g.vanjects[transfer.old_id].id == transfer.old_id);
        let new_world: u8 = transfer.new_vanject.get_world() as u8;
        if old_world != player_world_id {
            return Err(
                ItemTransferError::WrongWorld(transfer.old_id, old_world, player_world_id),
            );
        }
        if new_world != player_world_id {
            return Err(ItemTransferError::WrongWorld(new_id, new_world, player_world_id));
        }
        if transfer.kind == ITEM_TRANSFER_DROP && owner != player_bind_id {
            return Err(ItemTransferError::NotOwner(transfer.old_id, player_bind_id));
        }
        let mut new_vanject = transfer.new_vanject;
        new_vanject.player_bind_id = player_bind_id;
        let ghost objects = self.vanjects@;
        self.vanjects.remove(&transfer.old_id);
        let apply_packet = item_state_packet(transfer.old_id, &new_vanject);
        let ghost v = new_vanject;
        self.vanjects.insert(new_id, new_vanject);
        proof {
            lemma_vanjects_remove(objects, transfer.old_id);
            lemma_vanjects_insert(objects.remove(transfer.old_id), new_id, v);
            assert(self@ =~= transferred(g, client_id, transfer@));
        }
        Ok(apply_packet)
    }
}

/// Why the server turns down the transfer that `data` describes.
pub open spec fn item_transfer_refusal(
    s: ServerModel,
    data: Seq<u8>,
    client_id: ClientID,
) -> Option<ItemTransferError> {
    if transfer_defect(data) is Some {
        transfer_defect(data)
    } else if !has_game(s.games, client_id) {
        Some(ItemTransferError::PlayerNotFound(client_id))
    } else {
        transfer_refusal(game_of(s.games, client_id), client_id, transfer_in(data))
    }
}

/// The server after the transfer that `data` describes: the object is
/// replaced, and the others in its world are told.
pub open spec fn item_transfer_effect(
    s: ServerModel,
    data: Seq<u8>,
    client_id: ClientID,
) -> ServerModel {
    let t = transfer_in(data);
    let g = game_of(s.games, client_id);
    let after = ServerModel {
        games: with_game(s.games, client_id, transferred(g, client_id, t)),
        ..s
    };
    told_world(
        after,
        client_id,
        world_of(t.new_vanject.id) as u8,
        state_packet(t.old_id, arrived(g, client_id, t)),
        false,
    )
}

impl Server {
    /// Answers `ITEM_TRANSFER`.
    pub fn item_transfer(&mut self, packet: &Packet, client_id: ClientID) -> (r: Result<
        OnUpdateOk,
        OnUpdateError,
    >)
        requires
            old(self).wf(),
        ensures
            final(self).wf(),
            match item_transfer_refusal(old(self)@, packet.data@, client_id) {
                Some(e) => {
                    &&& r == Err::<OnUpdateOk, OnUpdateError>(OnUpdateError::ItemTransferError(e))
                    &&& final(self)@ == old(self)@
                },
                None => {
                    &&& r == Ok::<OnUpdateOk, OnUpdateError>(OnUpdateOk::Complete)
                    &&& final(self)@ == item_transfer_effect(old(self)@, packet.data@, client_id)
                },
            },
    {
        let transfer = match parse_item_transfer(packet) {
            Ok(transfer) => transfer,
            Err(err) => {
                return Err(OnUpdateError::ItemTransferError(err));
            },
        };
        if let Err(err) = validate_transfer_types(&transfer) {
            return Err(OnUpdateError::ItemTransferError(err));
        }
        if let Err(err) = validate_transfer_id_pair(&transfer) {
            return Err(OnUpdateError::ItemTransferError(err));
        }
        if let Err(err) = validate_linked_item_id(&transfer) {
            return Err(OnUpdateError::ItemTransferError(err));
        }
        if let Err(err) = validate_delete_marker(&transfer) {
            return Err(OnUpdateError::ItemTransferError(err));
        }
        let transfer_world: u8 = transfer.new_vanject.get_world() as u8;
        let ghost s = self@;
        let ghost t = transfer@;
        proof {
            if has_game(s.games, client_id) {
                lemma_game_of(s.games, client_id);
            }
        }
        let outcome = match self.get_mut_game_by_clientid(client_id) {
            Some(game) => game.transfer_item(client_id, transfer),
            None => Err(ItemTransferError::PlayerNotFound(client_id)),
        };
        proof {
            if has_game(s.games, client_id) {
                let g = game_of(s.games, client_id);
                if transfer_refusal(g, client_id, t) is None {
                    lemma_game_step(s.games, client_id, transferred(g, client_id, t));
                } else {
                    lemma_game_step(s.games, client_id, g);
                }
            }
        }
        match outcome {
            Ok(apply_packet) => {
                self.notify_world(client_id, transfer_world, &apply_packet, false);
                Ok(OnUpdateOk::Complete)
            },
            Err(err) => Err(OnUpdateError::ItemTransferError(err)),
        }
    }
}

/// A transfer exchanges one object for another and touches nothing else; the
/// new one belongs to whoever asked for it.
pub proof fn lemma_transfer_is_an_exchange(g: GameModel, client_id: ClientID, t: TransferModel)
    requires
        game_wf(g),
        transfer_refusal(g, client_id, t) is None,
        types_fit(t),
    ensures
        ({
            let after = transferred(g, client_id, t);
            &&& g.vanjects.contains_key(t.old_id) && !after.vanjects.contains_key(t.old_id)
            &&& !g.vanjects.contains_key(t.new_vanject.id) && after.vanjects.contains_key(
                t.new_vanject.id,
            )
            &&& after.vanjects[t.new_vanject.id] == arrived(g, client_id, t)
            &&& forall|id: i32|
                id != t.old_id && id != t.new_vanject.id ==> {
                    &&& #[trigger] after.vanjects.contains_key(id) == g.vanjects.contains_key(id)
                    &&& after.vanjects[id] == g.vanjects[id]
                }
            &&& after.players == g.players
            &&& after.vanjects.dom().len() == g.vanjects.dom().len()
        }),
{
    let after = transferred(g, client_id, t);
    lemma_types_differ(t);
    assert(after.vanjects.dom() =~= g.vanjects.dom().remove(t.old_id).insert(t.new_vanject.id));
}

/// The two forms of an item have different ids.
proof fn lemma_types_differ(t: TransferModel)
    requires
        types_fit(t),
    ensures
        t.old_id != t.new_vanject.id,
{
}

/// Of several transfers of one object only the first succeeds, whoever asks.
pub proof fn lemma_transfer_has_a_single_winner(
    g: GameModel,
    winner: ClientID,
    t: TransferModel,
    other: ClientID,
    later: TransferModel,
)
    requires
        transfer_refusal(g, winner, t) is None,
        types_fit(t),
        later.old_id == t.old_id,
    ensures
        transfer_refusal(transferred(g, winner, t), other, later) is Some,
{
    lemma_types_differ(t);
}

/// Only who owns an item drops it; whoever is there picks it up.
pub proof fn lemma_only_the_owner_drops(g: GameModel, client_id: ClientID, t: TransferModel)
    requires
        transfer_refusal(g, client_id, t) is None,
    ensures
        t.kind == ITEM_TRANSFER_DROP ==> player_of(g, client_id).bind is Some
            && g.vanjects[t.old_id].player_bind_id == player_of(g, client_id).bind->0.id,
{
}

/// Who has picked an item up can drop it again where it lay, and the game then
/// has the objects that it had before.
pub proof fn lemma_drop_undoes_pickup(
    g: GameModel,
    client_id: ClientID,
    pickup: TransferModel,
    drop: TransferModel,
)
    requires
        transfer_refusal(g, client_id, pickup) is None,
        types_fit(pickup),
        drop.old_id == pickup.new_vanject.id,
        drop.new_vanject.id == pickup.old_id,
    ensures
        transfer_refusal(transferred(g, client_id, pickup), client_id, drop) is None,
        transferred(transferred(g, client_id, pickup), client_id, drop).vanjects.dom()
            == g.vanjects.dom(),
{
    lemma_types_differ(pickup);
    let after = transferred(transferred(g, client_id, pickup), client_id, drop);
    assert(after.vanjects.dom() =~= g.vanjects.dom());
}

/// Whether two ids are those of one item, in the same form or in both.
pub open spec fn same_item(a: i32, b: i32) -> bool {
    &&& item_type(type_of(a)) && item_type(type_of(b))
    &&& station_of(a) == station_of(b)
    &&& world_of(a) == world_of(b)
    &&& counter_of(a) == counter_of(b)
}

/// Whether no item is there in both forms.
pub open spec fn items_single(vanjects: Map<i32, VanjectModel>) -> bool {
    forall|a: i32, b: i32|
        #![trigger vanjects.contains_key(a), vanjects.contains_key(b)]
        vanjects.contains_key(a) && vanjects.contains_key(b) && same_item(a, b) ==> a == b
}

/// An item has two ids at most.
pub proof fn lemma_item_has_two_forms(a: i32, b: i32, c: i32)
    requires
        same_item(a, b),
        same_item(a, c),
        a != b,
        a != c,
    ensures
        b == c,
{
    if type_of(a) == type_of(b) {
        lemma_fields_make_the_id(a, b);
    }
    if type_of(a) == type_of(c) {
        lemma_fields_make_the_id(a, c);
    }
    lemma_fields_make_the_id(b, c);
}

/// A transfer doubles no item: where each was there in one form, each still
/// is.
pub proof fn lemma_transfer_doubles_no_item(g: GameModel, client_id: ClientID, t: TransferModel)
    requires
        items_single(g.vanjects),
        transfer_refusal(g, client_id, t) is None,
        types_fit(t),
        ids_pair(t),
    ensures
        items_single(transferred(g, client_id, t).vanjects),
{
    let after = transferred(g, client_id, t).vanjects;
    let new_id = t.new_vanject.id;
    lemma_types_differ(t);
    assert(same_item(new_id, t.old_id));
    assert forall|a: i32, b: i32|
        #![trigger after.contains_key(a), after.contains_key(b)]
        after.contains_key(a) && after.contains_key(b) && same_item(a, b) implies a == b by {
        if a == new_id && b != new_id {
            lemma_item_has_two_forms(new_id, b, t.old_id);
        } else if b == new_id && a != new_id {
            lemma_item_has_two_forms(new_id, a, t.old_id);
        } else if a != new_id && b != new_id {
            assert(g.vanjects.contains_key(a) && g.vanjects.contains_key(b));
        }
    }
}

} // verus!
