//! Items that are picked up and dropped.

use vangers_srv::bytes::slice_le_to_i32;
use vangers_srv::callback::item_transfer::{
    is_item_type, is_item_vanject, item_has_paired_vanject, item_linked_id, item_removed_packet,
    item_state_for_vanject, item_state_packet, linked_item_id, object_packet, parse_item_transfer,
    validate_delete_marker, validate_linked_item_id, validate_transfer_id_pair,
    validate_transfer_types, ItemTransferError, ITEM_REMOVED_REASON_DELETE,
    ITEM_STATE_IN_INVENTORY, ITEM_STATE_IN_WORLD, ITEM_TRANSFER_DROP, ITEM_TRANSFER_PICKUP,
};
use vangers_srv::callback::OnUpdateError;
use vangers_srv::client::ClientID;
use vangers_srv::game::{Game, World};
use vangers_srv::player::Player;
use vangers_srv::protocol::{Action, Packet};
use vangers_srv::server::Server;
use vangers_srv::vanject::{get_vanject_type, Vanject, NID};

fn make_id(station: i32, world: i32, nid: i32, counter: i32) -> i32 {
    (station << 26) | (world << 22) | nid | counter
}

fn make_item_create_payload(id: i32, linked_id: i32, net_owner: i32) -> Vec<u8> {
    std::iter::empty()
        .chain(&id.to_le_bytes())
        .chain(&6i32.to_le_bytes())
        .chain(&10i16.to_le_bytes())
        .chain(&20i16.to_le_bytes())
        .chain(&15i16.to_le_bytes())
        .chain(&[7u8])
        .chain(&linked_id.to_le_bytes())
        .chain(&30i16.to_le_bytes())
        .chain(&[8u8])
        .chain(&9i32.to_le_bytes())
        .chain(&10i32.to_le_bytes())
        .chain(&[0u8])
        .chain(&11i16.to_le_bytes())
        .chain(&12i16.to_le_bytes())
        .chain(&13i16.to_le_bytes())
        .chain(&net_owner.to_le_bytes())
        .copied()
        .collect()
}

fn make_transfer_packet(kind: u8, old_id: i32, new_id: i32, linked_id: i32) -> Packet {
    let create = make_item_create_payload(
        new_id,
        linked_id,
        if get_vanject_type(new_id) == NID::DEVICE { 1 } else { 0 },
    );
    let data = std::iter::empty()
        .chain(&[kind])
        .chain(&old_id.to_le_bytes())
        .chain(&77i32.to_le_bytes())
        .chain(&[1u8])
        .chain(&create)
        .copied()
        .collect::<Vec<_>>();
    Packet::new(Action::ITEM_TRANSFER, &data)
}

fn make_server_with_players() -> (Server, ClientID, ClientID) {
    let mut srv = Server::new(Default::default());
    let mut game = Game::new(1);
    let world = World::new(1, 100);
    game.worlds.push(world);

    let player1: ClientID = 11;
    let player2: ClientID = 22;
    game.attach_player(Player::new(player1));
    game.attach_player(Player::new(player2));
    game.place_player(player1, &world);
    game.place_player(player2, &world);

    srv.games.insert(1, game);
    (srv, player1, player2)
}

fn insert_vanject(srv: &mut Server, id: i32, owner: u8, linked_id: i32, net_owner: i32) {
    let mut vanject =
        Vanject::create_from_slice(&make_item_create_payload(id, linked_id, net_owner)).unwrap();
    vanject.player_bind_id = owner;
    srv.games.get_mut(&1).unwrap().vanjects.insert(id, vanject);
}

fn error_of(srv: &mut Server, packet: &Packet, client_id: ClientID) -> ItemTransferError {
    match srv.item_transfer(packet, client_id).unwrap_err() {
        OnUpdateError::ItemTransferError(err) => err,
        other => panic!("unexpected error: {other:?}"),
    }
}

#[test]
fn pickup_allows_non_owner_world_stuff_and_commits_atomically() {
    let (mut srv, player1, player2) = make_server_with_players();
    let old_stuff = make_id(1, 1, NID::STUFF, 79);
    let new_device = make_id(1, 1, NID::DEVICE, 79);
    insert_vanject(&mut srv, old_stuff, 1, new_device, 0);

    let packet = make_transfer_packet(ITEM_TRANSFER_PICKUP, old_stuff, new_device, old_stuff);
    srv.item_transfer(&packet, player2).unwrap();

    let game = srv.games.get(&1).unwrap();
    assert!(!game.vanjects.contains_key(&old_stuff));
    let device = game.vanjects.get(&new_device).unwrap();
    assert_eq!(device.player_bind_id, 2);
    assert_eq!(linked_item_id(device).unwrap(), old_stuff);
    assert_ne!(player1, player2);
}

#[test]
fn pickup_race_has_single_winner() {
    let (mut srv, _player1, player2) = make_server_with_players();
    let old_stuff = make_id(1, 1, NID::STUFF, 80);
    let winner_device = make_id(1, 1, NID::DEVICE, 80);
    insert_vanject(&mut srv, old_stuff, 1, winner_device, 0);

    let first = make_transfer_packet(ITEM_TRANSFER_PICKUP, old_stuff, winner_device, old_stuff);
    srv.item_transfer(&first, player2).unwrap();

    let second = make_transfer_packet(ITEM_TRANSFER_PICKUP, old_stuff, winner_device, old_stuff);
    assert!(srv.item_transfer(&second, player2).is_err());

    let game = srv.games.get(&1).unwrap();
    assert!(game.vanjects.contains_key(&winner_device));
    assert!(!game.vanjects.contains_key(&old_stuff));
}

#[test]
fn item_state_packet_is_single_authoritative_item_event_with_update_payload() {
    let old_stuff = make_id(1, 1, NID::STUFF, 86);
    let new_device = make_id(1, 1, NID::DEVICE, 86);
    let mut vanject =
        Vanject::create_from_slice(&make_item_create_payload(new_device, old_stuff, 1)).unwrap();
    vanject.player_bind_id = 2;

    let packet = item_state_packet(old_stuff, &vanject);

    assert_eq!(packet.action, Action::ITEM_STATE);
    assert_eq!(packet.data[0], ITEM_STATE_IN_INVENTORY);
    assert_eq!(slice_le_to_i32(&packet.data[1..5]), old_stuff);
    assert_eq!(slice_le_to_i32(&packet.data[5..9]), new_device);
    assert_eq!(packet.data[9], 2);
    assert_eq!(slice_le_to_i32(&packet.data[10..14]), vanject.time);
    assert_eq!(packet.data.len(), 5 + vanject.to_vangers_byte().len());
}

#[test]
fn item_removed_packet_carries_paired_id_and_reason() {
    let stuff = make_id(1, 1, NID::STUFF, 87);
    let device = make_id(1, 1, NID::DEVICE, 87);
    let vanject = Vanject::create_from_slice(&make_item_create_payload(stuff, device, 0)).unwrap();

    let packet = item_removed_packet(&vanject, ITEM_REMOVED_REASON_DELETE);

    assert_eq!(packet.action, Action::ITEM_REMOVED);
    assert_eq!(slice_le_to_i32(&packet.data[0..4]), stuff);
    assert_eq!(slice_le_to_i32(&packet.data[4..8]), device);
    assert_eq!(packet.data[8], ITEM_REMOVED_REASON_DELETE);
}

#[test]
fn drop_requires_inventory_owner() {
    let (mut srv, player1, player2) = make_server_with_players();
    let old_device = make_id(1, 1, NID::DEVICE, 81);
    let new_stuff = make_id(1, 1, NID::STUFF, 81);
    insert_vanject(&mut srv, old_device, 1, new_stuff, 1);

    let packet = make_transfer_packet(ITEM_TRANSFER_DROP, old_device, new_stuff, old_device);
    assert!(srv.item_transfer(&packet, player2).is_err());

    srv.item_transfer(&packet, player1).unwrap();
    let game = srv.games.get(&1).unwrap();
    assert!(!game.vanjects.contains_key(&old_device));
    assert!(game.vanjects.contains_key(&new_stuff));
}

#[test]
fn rejects_wrong_linked_id_without_mutating_state() {
    let (mut srv, _player1, player2) = make_server_with_players();
    let old_stuff = make_id(1, 1, NID::STUFF, 82);
    let new_device = make_id(1, 1, NID::DEVICE, 82);
    let wrong_link = make_id(1, 1, NID::STUFF, 83);
    insert_vanject(&mut srv, old_stuff, 1, new_device, 0);

    let packet = make_transfer_packet(ITEM_TRANSFER_PICKUP, old_stuff, new_device, wrong_link);
    assert!(srv.item_transfer(&packet, player2).is_err());

    let game = srv.games.get(&1).unwrap();
    assert!(game.vanjects.contains_key(&old_stuff));
    assert!(!game.vanjects.contains_key(&new_device));
}

#[test]
fn rejects_wrong_world_without_mutating_state() {
    let (mut srv, _player1, player2) = make_server_with_players();
    let old_stuff = make_id(1, 2, NID::STUFF, 84);
    let new_device = make_id(1, 2, NID::DEVICE, 84);
    insert_vanject(&mut srv, old_stuff, 1, new_device, 0);

    let packet = make_transfer_packet(ITEM_TRANSFER_PICKUP, old_stuff, new_device, old_stuff);
    assert!(srv.item_transfer(&packet, player2).is_err());

    let game = srv.games.get(&1).unwrap();
    assert!(game.vanjects.contains_key(&old_stuff));
    assert!(!game.vanjects.contains_key(&new_device));
}

#[test]
fn rejects_item_id_pair_mismatch_without_mutating_state() {
    let (mut srv, _player1, player2) = make_server_with_players();
    let old_stuff = make_id(1, 1, NID::STUFF, 85);
    let new_device_with_wrong_counter = make_id(1, 1, NID::DEVICE, 86);
    insert_vanject(&mut srv, old_stuff, 1, new_device_with_wrong_counter, 0);

    let packet = make_transfer_packet(
        ITEM_TRANSFER_PICKUP,
        old_stuff,
        new_device_with_wrong_counter,
        old_stuff,
    );
    assert!(srv.item_transfer(&packet, player2).is_err());

    let game = srv.games.get(&1).unwrap();
    assert!(game.vanjects.contains_key(&old_stuff));
    assert!(!game.vanjects.contains_key(&new_device_with_wrong_counter));
}

#[test]
fn every_defect_of_a_transfer_has_its_error() {
    let (mut srv, player1, player2) = make_server_with_players();
    let stuff = make_id(1, 1, NID::STUFF, 5);
    let device = make_id(1, 1, NID::DEVICE, 5);
    let pickup = make_transfer_packet(ITEM_TRANSFER_PICKUP, stuff, device, stuff);

    let short = Packet::new(Action::ITEM_TRANSFER, &pickup.data[..23]);
    assert_eq!(error_of(&mut srv, &short, player1), ItemTransferError::PacketTooSmall(23));

    let kind = make_transfer_packet(3, stuff, device, stuff);
    assert_eq!(error_of(&mut srv, &kind, player1), ItemTransferError::InvalidKind(3));

    let types = make_transfer_packet(ITEM_TRANSFER_DROP, stuff, device, stuff);
    assert_eq!(
        error_of(&mut srv, &types, player1),
        ItemTransferError::TypeMismatch(ITEM_TRANSFER_DROP, NID::STUFF, NID::DEVICE)
    );

    let other = make_id(2, 1, NID::DEVICE, 5);
    let pair = make_transfer_packet(ITEM_TRANSFER_PICKUP, stuff, other, stuff);
    assert_eq!(
        error_of(&mut srv, &pair, player1),
        ItemTransferError::ItemIdPairMismatch(stuff, other)
    );

    let link = make_transfer_packet(ITEM_TRANSFER_PICKUP, stuff, device, device);
    assert_eq!(
        error_of(&mut srv, &link, player1),
        ItemTransferError::LinkedIdMismatch(stuff, device)
    );

    let body = Packet::new(Action::ITEM_TRANSFER, &pickup.data[..28]);
    assert_eq!(error_of(&mut srv, &body, player1), ItemTransferError::NewItemBodyTooSmall);

    let mut data = pickup.data.clone();
    data[9] = 2;
    let marker = Packet::new(Action::ITEM_TRANSFER, &data);
    assert_eq!(error_of(&mut srv, &marker, player1), ItemTransferError::InvalidDeleteMarker(2));

    assert_eq!(error_of(&mut srv, &pickup, 99), ItemTransferError::PlayerNotFound(99));
    assert_eq!(error_of(&mut srv, &pickup, player1), ItemTransferError::OldItemNotFound(stuff));

    insert_vanject(&mut srv, stuff, 2, device, 0);
    insert_vanject(&mut srv, device, 2, stuff, 0);
    assert_eq!(
        error_of(&mut srv, &pickup, player1),
        ItemTransferError::NewItemAlreadyExists(device)
    );

    let game = srv.games.get_mut(&1).unwrap();
    game.vanjects.remove(&stuff);
    let drop = make_transfer_packet(ITEM_TRANSFER_DROP, device, stuff, device);
    assert_eq!(error_of(&mut srv, &drop, player1), ItemTransferError::NotOwner(device, 1));

    let game = srv.games.get_mut(&1).unwrap();
    game.get_mut_player(player2).unwrap().world = Some(World::new(2, 100));
    assert_eq!(error_of(&mut srv, &drop, player2), ItemTransferError::WrongWorld(device, 1, 2));
    let game = srv.games.get_mut(&1).unwrap();
    game.get_mut_player(player2).unwrap().world = None;
    assert_eq!(error_of(&mut srv, &drop, player2), ItemTransferError::PlayerWorldEmpty(player2));
    let game = srv.games.get_mut(&1).unwrap();
    game.get_mut_player(player2).unwrap().bind = None;
    assert_eq!(error_of(&mut srv, &drop, player2), ItemTransferError::PlayerNotBind(player2));
}

#[test]
fn drop_after_pickup_restores_the_ids() {
    let (mut srv, _player1, player2) = make_server_with_players();
    let stuff = make_id(1, 1, NID::STUFF, 7);
    let device = make_id(1, 1, NID::DEVICE, 7);
    insert_vanject(&mut srv, stuff, 1, device, 0);

    let pickup = make_transfer_packet(ITEM_TRANSFER_PICKUP, stuff, device, stuff);
    let drop = make_transfer_packet(ITEM_TRANSFER_DROP, device, stuff, device);
    srv.item_transfer(&pickup, player2).unwrap();
    srv.item_transfer(&drop, player2).unwrap();

    let game = srv.games.get(&1).unwrap();
    assert_eq!(game.vanjects.len(), 1);
    assert_eq!(game.vanjects.get(&stuff).unwrap().player_bind_id, 2);
}

#[test]
fn parts_of_a_transfer_are_read_and_checked() {
    let stuff = make_id(1, 1, NID::STUFF, 9);
    let device = make_id(1, 1, NID::DEVICE, 9);
    let packet = make_transfer_packet(ITEM_TRANSFER_PICKUP, stuff, device, stuff);
    let transfer = parse_item_transfer(&packet).ok().unwrap();
    assert_eq!(transfer.kind, ITEM_TRANSFER_PICKUP);
    assert_eq!(transfer.old_id, stuff);
    assert_eq!(transfer.delete_body, 1);
    assert_eq!(transfer.new_vanject.id, device);
    assert_eq!(transfer.new_vanject.time, 6);
    assert!(validate_transfer_types(&transfer).is_ok());
    assert!(validate_transfer_id_pair(&transfer).is_ok());
    assert!(validate_linked_item_id(&transfer).is_ok());
    assert!(validate_delete_marker(&transfer).is_ok());
}

#[test]
fn items_are_stuff_and_devices() {
    assert!(is_item_type(NID::STUFF) && is_item_type(NID::DEVICE));
    assert!(!is_item_type(NID::VANGER) && !is_item_type(NID::SLOT));

    let stuff_id = make_id(1, 1, NID::STUFF, 3);
    let device_id = make_id(1, 1, NID::DEVICE, 3);
    let stuff =
        Vanject::create_from_slice(&make_item_create_payload(stuff_id, device_id, 0)).unwrap();
    assert!(is_item_vanject(&stuff));
    assert_eq!(item_linked_id(&stuff), Some(device_id));
    assert_eq!(item_state_for_vanject(&stuff), ITEM_STATE_IN_WORLD);
    assert_eq!(object_packet(&stuff).action, Action::ITEM_STATE);

    let mut vanjects = std::collections::HashMap::new();
    assert_eq!(item_has_paired_vanject(&stuff, &vanjects), None);
    let device =
        Vanject::create_from_slice(&make_item_create_payload(device_id, stuff_id, 0)).unwrap();
    vanjects.insert(device_id, device);
    assert_eq!(item_has_paired_vanject(&stuff, &vanjects), Some(device_id));

    let vanger_id = make_id(1, 1, NID::VANGER, 3);
    let vanger = Vanject::create_from_slice(&make_item_create_payload(vanger_id, 0, 0)).unwrap();
    assert_eq!(item_state_for_vanject(&vanger), 0);
    assert_eq!(object_packet(&vanger).action, Action::UPDATE_OBJECT);
    assert_eq!(object_packet(&vanger).data, vanger.to_vangers_byte());
}
