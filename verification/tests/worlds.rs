//! Players who enter and leave worlds, move, and come back.

use tokio::sync::mpsc;

use vangers_srv::callback::leave_world::{should_delete_on_leave_world, LeaveWorldError};
use vangers_srv::callback::restore_connection::RestoreConnectionError;
use vangers_srv::callback::set_position::SetPositionError;
use vangers_srv::callback::set_world::{
    should_include_in_world_snapshot, world_snapshot_order, SetWorldError,
};
use vangers_srv::callback::total_players_data_query::total_players_data_packet;
use vangers_srv::callback::{OnUpdateError, OnUpdateOk};
use vangers_srv::client::{Client, ClientID};
use vangers_srv::game::{Game, World};
use vangers_srv::player::{Player, Status};
use vangers_srv::protocol::{Action, Packet};
use vangers_srv::server::Server;
use vangers_srv::vanject::{Vanject, NID};

fn make_id(station: i32, world: i32, nid: i32, counter: i32) -> i32 {
    (station << 26) | (world << 22) | nid | counter
}

fn make_vanject(id: i32, player_bind_id: u8) -> Vanject {
    let mut vanject = Vanject::create_from_slice(
        &std::iter::empty()
            .chain(&id.to_le_bytes())
            .chain(&6i32.to_le_bytes())
            .chain(&10i16.to_le_bytes())
            .chain(&20i16.to_le_bytes())
            .chain(&15i16.to_le_bytes())
            .chain(&[1, 2, 3])
            .copied()
            .collect::<Vec<_>>(),
    )
    .unwrap();
    vanject.player_bind_id = player_bind_id;
    vanject
}

fn connect(srv: &mut Server, id: ClientID) -> mpsc::Receiver<Vec<u8>> {
    let (tx, rx) = mpsc::channel::<Vec<u8>>(100);
    srv.add_client(Client::with_queue(id, tx));
    rx
}

fn received(rx: &mut mpsc::Receiver<Vec<u8>>) -> Vec<Packet> {
    let mut packets = Vec::new();
    while let Ok(bytes) = rx.try_recv() {
        packets.push(Packet::from_slice(&bytes));
    }
    packets
}

fn actions(packets: &[Packet]) -> Vec<Action> {
    packets.iter().map(|p| p.action).collect()
}

#[test]
fn leave_world_removes_player_owned_non_private_objects_too() {
    let mut srv = Server::new(Default::default());
    let mut game = Game::new(1);
    let client_id: ClientID = 11;
    game.attach_player(Player::new(client_id));

    let world = World::new(1, 100);
    game.worlds.push(world);
    game.place_player(client_id, &world);

    let mut slot = Vanject::create_from_slice(&[
        1, 0, 2, 4, // player-owned SLOT object, non-private but non-global
        6, 0, 0, 0, // time
        10, 0, // x
        20, 0, // y
        15, 0, // radius
        1, 2, 3,
    ])
    .unwrap();
    slot.player_bind_id = 1;
    let slot_id = slot.id;
    game.vanjects.insert(slot_id, slot);

    srv.games.insert(1, game);
    srv.leave_world(&Packet::new(Action::LEAVE_WORLD, &[]), client_id).unwrap();

    let game = srv.games.get(&1).unwrap();
    assert!(!game.vanjects.contains_key(&slot_id));
}

#[test]
fn leave_world_preserves_inventory_now_owned_by_another_player() {
    let mut srv = Server::new(Default::default());
    let mut game = Game::new(1);
    let leaving_client_id: ClientID = 11;
    let other_client_id: ClientID = 22;
    game.attach_player(Player::new(leaving_client_id));
    game.attach_player(Player::new(other_client_id));

    let world = World::new(1, 100);
    game.worlds.push(world);
    game.place_player(leaving_client_id, &world);

    let station = 1;
    let world_id = 1;
    let slot_id = make_id(station, world_id, NID::SLOT, 3);

    // The network id still belongs to station 1, but the current inventory
    // owner is player 2: leaving player 1 must not delete it.
    game.vanjects.insert(slot_id, make_vanject(slot_id, 2));

    srv.games.insert(1, game);
    srv.leave_world(&Packet::new(Action::LEAVE_WORLD, &[]), leaving_client_id).unwrap();

    let game = srv.games.get(&1).unwrap();
    assert!(game.vanjects.contains_key(&slot_id));
}

fn make_server_in_world() -> (Server, ClientID) {
    let mut srv = Server::new(Default::default());
    let mut game = Game::new(1);
    let client_id: ClientID = 11;
    game.attach_player(Player::new(client_id));

    let world = World::new(1, 100);
    game.worlds.push(world);
    game.place_player(client_id, &world);
    srv.games.insert(1, game);
    (srv, client_id)
}

#[test]
fn leave_world_preserves_dropped_world_stuff_created_by_player() {
    let (mut srv, client_id) = make_server_in_world();
    let stuff_id = make_id(1, 1, NID::STUFF, 4);
    srv.games.get_mut(&1).unwrap().vanjects.insert(stuff_id, make_vanject(stuff_id, 1));

    srv.leave_world(&Packet::new(Action::LEAVE_WORLD, &[]), client_id).unwrap();

    let game = srv.games.get(&1).unwrap();
    assert!(game.vanjects.contains_key(&stuff_id));
}

#[test]
fn leave_world_removes_private_station_objects() {
    let (mut srv, client_id) = make_server_in_world();
    let private_id = make_id(1, 1, NID::VANGER, 5);
    srv.games.get_mut(&1).unwrap().vanjects.insert(private_id, make_vanject(private_id, 2));

    srv.leave_world(&Packet::new(Action::LEAVE_WORLD, &[]), client_id).unwrap();

    let game = srv.games.get(&1).unwrap();
    assert!(!game.vanjects.contains_key(&private_id));
}

#[test]
fn leave_world_preserves_static_world_objects() {
    let (mut srv, client_id) = make_server_in_world();
    let station = 1 << 26;
    let world_bits = 1 << 22;
    let sensor_id = station | world_bits | NID::SENSOR | 1;
    let tnt_id = station | world_bits | NID::TNT | 2;
    let slot_id = station | world_bits | NID::SLOT | 3;

    let game = srv.games.get_mut(&1).unwrap();
    game.vanjects.insert(sensor_id, make_vanject(sensor_id, 1));
    game.vanjects.insert(tnt_id, make_vanject(tnt_id, 1));
    game.vanjects.insert(slot_id, make_vanject(slot_id, 1));

    srv.leave_world(&Packet::new(Action::LEAVE_WORLD, &[]), client_id).unwrap();

    let game = srv.games.get(&1).unwrap();
    assert!(game.vanjects.contains_key(&sensor_id));
    assert!(game.vanjects.contains_key(&tnt_id));
    assert!(!game.vanjects.contains_key(&slot_id));
}

#[test]
fn leave_world_does_not_send_world_hide_burst_to_leaving_player() {
    let (mut srv, client_id) = make_server_in_world();
    let mut mine = connect(&mut srv, client_id);
    let station = 1 << 26;
    let world_bits = 1 << 22;
    let sensor_id = station | world_bits | NID::SENSOR | 1;
    let tnt_id = station | world_bits | NID::TNT | 2;
    let game = srv.games.get_mut(&1).unwrap();
    game.vanjects.insert(sensor_id, make_vanject(sensor_id, 1));
    game.vanjects.insert(tnt_id, make_vanject(tnt_id, 1));

    srv.leave_world(&Packet::new(Action::LEAVE_WORLD, &[]), client_id).unwrap();

    assert!(
        received(&mut mine).is_empty(),
        "LEAVE_WORLD must not send HIDE_OBJECT burst to the leaving client"
    );
}

#[test]
fn the_others_are_told_what_went_with_a_player() {
    let (mut srv, client_id) = make_server_in_world();
    let other: ClientID = 22;
    srv.games.get_mut(&1).unwrap().attach_player(Player::new(other));
    let mut theirs = connect(&mut srv, other);
    let low = make_id(1, 1, NID::SLOT, 3);
    let high = make_id(1, 1, NID::SHELL, 2);
    let game = srv.games.get_mut(&1).unwrap();
    game.vanjects.insert(high, make_vanject(high, 1));
    game.vanjects.insert(low, make_vanject(low, 1));

    srv.leave_world(&Packet::new(Action::LEAVE_WORLD, &[]), client_id).unwrap();

    let gone = |id: i32| -> Vec<u8> {
        id.to_le_bytes().into_iter().chain([1, 6, 0, 0, 0]).collect()
    };
    let told = received(&mut theirs);
    assert_eq!(
        actions(&told),
        vec![Action::DELETE_OBJECT, Action::DELETE_OBJECT, Action::PLAYERS_WORLD]
    );
    assert_eq!(told[0].data, gone(low));
    assert_eq!(told[1].data, gone(high));
    assert_eq!(told[2].data, vec![1, 0]);
    assert!(srv.games.get(&1).unwrap().get_player(client_id).unwrap().world.is_none());
}

#[test]
fn leaving_errors() {
    let (mut srv, client_id) = make_server_in_world();
    let packet = Packet::new(Action::LEAVE_WORLD, &[]);
    assert!(matches!(
        srv.leave_world(&packet, 99),
        Err(OnUpdateError::LeaveWorldError(LeaveWorldError::PlayerNotFound(99)))
    ));
    srv.leave_world(&packet, client_id).unwrap();
    assert!(matches!(
        srv.leave_world(&packet, client_id),
        Err(OnUpdateError::LeaveWorldError(LeaveWorldError::WorldEmpty(11)))
    ));
    srv.games.get_mut(&1).unwrap().get_mut_player(client_id).unwrap().bind = None;
    assert!(matches!(
        srv.leave_world(&packet, client_id),
        Err(OnUpdateError::LeaveWorldError(LeaveWorldError::PlayerNotBind(11)))
    ));
}

#[test]
fn what_goes_with_a_player() {
    assert!(should_delete_on_leave_world(&make_vanject(make_id(2, 1, NID::SLOT, 1), 1), 1));
    assert!(!should_delete_on_leave_world(&make_vanject(make_id(1, 1, NID::SLOT, 1), 2), 1));
    assert!(should_delete_on_leave_world(&make_vanject(make_id(1, 1, NID::VANGER, 1), 2), 1));
    assert!(!should_delete_on_leave_world(&make_vanject(make_id(1, 1, NID::GLOBAL, 1), 1), 1));
}

#[test]
fn set_world_cleans_old_world_when_player_was_already_bound() {
    let (mut srv, client_id) = make_server_in_world();
    let mut vanger = Vanject::create_from_slice(&[
        1, 0, 9, 4, // id
        6, 0, 0, 0, // time
        10, 0, // x
        20, 0, // y
        15, 0, // radius
        7, 8,
    ])
    .unwrap();
    vanger.player_bind_id = 1;
    let vanger_id = vanger.id;
    srv.games.get_mut(&1).unwrap().vanjects.insert(vanger_id, vanger);

    let packet = Packet::new(Action::SET_WORLD, &[2, 100, 0]);
    srv.set_world(&packet, client_id).unwrap();

    let game = srv.games.get(&1).unwrap();
    let player = game.get_player(client_id).unwrap();
    assert_eq!(player.world.as_ref().unwrap().id, 2);
    assert!(!game.vanjects.contains_key(&vanger_id));
}

fn make_vanject_id(station: i32, world: i32, nid: i32, counter: i32) -> i32 {
    (station << 26) | (world << 22) | nid | counter
}

fn make_unowned_vanject(id: i32) -> Vanject {
    Vanject::create_from_slice(&[
        (id & 0xff) as u8,
        ((id >> 8) & 0xff) as u8,
        ((id >> 16) & 0xff) as u8,
        ((id >> 24) & 0xff) as u8,
        6,
        0,
        0,
        0,
        10,
        0,
        20,
        0,
        15,
        0,
        7,
        8,
    ])
    .unwrap()
}

#[test]
fn snapshot_includes_remote_vanger_slots_devices_shells_and_world_stuff() {
    let remote_vanger = make_vanject_id(2, 1, NID::VANGER, 1);
    let remote_slot = make_vanject_id(2, 1, NID::SLOT, 2);
    let remote_device = make_vanject_id(2, 1, NID::DEVICE, 3);
    let remote_shell = make_vanject_id(2, 1, NID::SHELL, 4);
    let world_stuff = make_vanject_id(3, 1, NID::STUFF, 5);

    for id in [remote_vanger, remote_slot, remote_device, remote_shell, world_stuff] {
        let mut vanject = make_unowned_vanject(id);
        vanject.player_bind_id = if id == world_stuff { 3 } else { 2 };
        assert!(
            should_include_in_world_snapshot(&vanject, 1, 1),
            "id 0x{id:08X} should be included"
        );
    }
}

#[test]
fn snapshot_orders_vanger_before_equipment_shells_and_world_stuff() {
    let vanger = make_unowned_vanject(make_vanject_id(2, 1, NID::VANGER, 1));
    let slot = make_unowned_vanject(make_vanject_id(2, 1, NID::SLOT, 2));
    let device = make_unowned_vanject(make_vanject_id(2, 1, NID::DEVICE, 3));
    let shell = make_unowned_vanject(make_vanject_id(2, 1, NID::SHELL, 4));
    let stuff = make_unowned_vanject(make_vanject_id(3, 1, NID::STUFF, 5));

    assert!(world_snapshot_order(&vanger) < world_snapshot_order(&slot));
    assert!(world_snapshot_order(&slot) < world_snapshot_order(&device));
    assert!(world_snapshot_order(&device) < world_snapshot_order(&shell));
    assert!(world_snapshot_order(&shell) < world_snapshot_order(&stuff));
}

#[test]
fn snapshot_excludes_joining_players_own_inventory_objects_and_other_worlds() {
    let own_vanger = make_vanject_id(1, 1, NID::VANGER, 1);
    let own_device = make_vanject_id(1, 1, NID::DEVICE, 1);
    let other_world_stuff = make_vanject_id(2, 2, NID::STUFF, 2);

    let mut vanject = make_unowned_vanject(own_vanger);
    vanject.player_bind_id = 1;
    assert!(!should_include_in_world_snapshot(&vanject, 1, 1));

    let mut vanject = make_unowned_vanject(own_device);
    vanject.player_bind_id = 1;
    assert!(!should_include_in_world_snapshot(&vanject, 1, 1));

    let mut vanject = make_unowned_vanject(other_world_stuff);
    vanject.player_bind_id = 2;
    assert!(!should_include_in_world_snapshot(&vanject, 1, 1));
}

#[test]
fn entering_player_is_told_of_the_world_between_two_marks() {
    let mut srv = Server::new(Default::default());
    let mut game = Game::new(1);
    let (me, other): (ClientID, ClientID) = (11, 22);
    game.attach_player(Player::new(me));
    game.attach_player(Player::new(other));
    let stuff = make_id(2, 3, NID::STUFF, 1);
    let slot = make_id(2, 3, NID::SLOT, 1);
    let vanger = make_id(2, 3, NID::VANGER, 1);
    for id in [stuff, slot, vanger] {
        game.vanjects.insert(id, make_vanject(id, 2));
    }
    let own = make_id(1, 3, NID::SLOT, 1);
    game.vanjects.insert(own, make_vanject(own, 1));
    srv.games.insert(1, game);
    let mut mine = connect(&mut srv, me);
    let mut theirs = connect(&mut srv, other);

    srv.set_world(&Packet::new(Action::SET_WORLD, &[3, 0, 4]), me).unwrap();

    let told = received(&mut mine);
    assert_eq!(
        actions(&told),
        vec![
            Action::PLAYERS_STATUS,
            Action::SET_WORLD_RESPONSE,
            Action::WORLD_SNAPSHOT_BEGIN,
            Action::TOTAL_PLAYERS_DATA_RESPONSE,
            Action::UPDATE_OBJECT,
            Action::UPDATE_OBJECT,
            Action::ITEM_STATE,
            Action::WORLD_SNAPSHOT_END,
        ]
    );
    assert_eq!(told[0].data, vec![1, Status::GAMING.code()]);
    assert_eq!(told[1].data, vec![3, 1]);
    assert_eq!(told[2].data, vec![3]);
    assert_eq!(told[4].data[..4], vanger.to_le_bytes());
    assert_eq!(told[5].data[..4], slot.to_le_bytes());
    assert_eq!(told[6].data[5..9], stuff.to_le_bytes());
    assert_eq!(told[7].data, vec![3]);

    let heard = received(&mut theirs);
    assert_eq!(actions(&heard), vec![Action::PLAYERS_STATUS, Action::PLAYERS_WORLD]);
    assert_eq!(heard[1].data, vec![1, 3]);

    let game = srv.games.get(&1).unwrap();
    assert_eq!(game.worlds, vec![World::new(3, 1024)]);
    assert_eq!(game.get_player(me).unwrap().status, Status::GAMING);

    // The second time the world is known and the player already plays.
    srv.set_world(&Packet::new(Action::SET_WORLD, &[3, 0, 4]), me).unwrap();
    let again = received(&mut mine);
    assert_eq!(again[0].action, Action::SET_WORLD_RESPONSE);
    assert_eq!(again[0].data, vec![3, 0]);
}

#[test]
fn player_who_starts_is_announced_to_all_clients() {
    let mut srv = Server::new(Default::default());
    let mut game = Game::new(1);
    game.attach_player(Player::new(11));
    srv.games.insert(1, game);
    let mut stranger = connect(&mut srv, 77);
    srv.set_world(&Packet::new(Action::SET_WORLD, &[3, 0, 4]), 11).unwrap();
    let heard = received(&mut stranger);
    assert_eq!(actions(&heard), vec![Action::PLAYERS_STATUS]);
    assert_eq!(heard[0].data, vec![1, Status::GAMING.code()]);
}

#[test]
fn only_an_entry_needs_an_answer() {
    let (mut srv, client_id) = make_server_in_world();
    // A request of an action without an answer can still be turned down.
    let odd = Packet::new(Action::LEAVE_WORLD, &[1, 101, 0]);
    assert!(matches!(
        srv.set_world(&odd, client_id),
        Err(OnUpdateError::SetWorldError(SetWorldError::InvalidWorldSize(100, 101)))
    ));
}

#[test]
fn roster_names_every_player() {
    let mut game = Game::new(1);
    game.attach_player(Player::new(11));
    game.attach_player(Player::new(22));
    game.place_player(22, &World::new(5, 1));
    game.get_mut_player(11).unwrap().set_auth(b"abc\0", b"\0");
    let packet = total_players_data_packet(&game);
    assert_eq!(packet.action, Action::TOTAL_PLAYERS_DATA_RESPONSE);
    assert_eq!(
        packet.data,
        vec![2, 1, 0, 0, 0, 0, 0, 0, b'a', b'b', b'c', 0, 2, 1, 5, 0, 0, 0, 0]
    );
}

#[test]
fn entering_errors() {
    let (mut srv, client_id) = make_server_in_world();
    assert!(matches!(
        srv.set_world(&Packet::new(Action::SET_WORLD, &[2, 1, 0]), 99),
        Err(OnUpdateError::SetWorldError(SetWorldError::PlayerNotFound(99)))
    ));
    assert!(matches!(
        srv.set_world(&Packet::new(Action::SET_WORLD, &[1, 101, 0]), client_id),
        Err(OnUpdateError::SetWorldError(SetWorldError::InvalidWorldSize(100, 101)))
    ));
    assert!(srv.games.get(&1).unwrap().get_player(client_id).unwrap().world.is_some());

    srv.games.get_mut(&1).unwrap().get_mut_player(client_id).unwrap().bind = None;
    assert!(matches!(
        srv.set_world(&Packet::new(Action::SET_WORLD, &[2, 1, 0]), client_id),
        Err(OnUpdateError::LeaveWorldError(LeaveWorldError::PlayerNotBind(11)))
    ));
    srv.games.get_mut(&1).unwrap().get_mut_player(client_id).unwrap().world = None;
    assert!(matches!(
        srv.set_world(&Packet::new(Action::SET_WORLD, &[2, 1, 0]), client_id),
        Err(OnUpdateError::SetWorldError(SetWorldError::PlayerNotBind(11)))
    ));
    assert_eq!(srv.games.get(&1).unwrap().worlds.len(), 2);
}

#[test]
fn updates_player_position_after_world_is_set() {
    let (mut srv, client_id) = make_server_in_world();
    let packet = Packet::new(
        Action::SET_POSITION,
        &std::iter::empty()
            .chain(&123i16.to_le_bytes())
            .chain(&456i16.to_le_bytes())
            .chain(&78i16.to_le_bytes())
            .copied()
            .collect::<Vec<_>>(),
    );

    srv.set_position(&packet, client_id).unwrap();

    let game = srv.games.get(&1).unwrap();
    let player = game.get_player(client_id).unwrap();
    assert_eq!(player.pos.x, 123);
    assert_eq!(player.pos.y, 456);
    assert_eq!(player.screen_y_half_size, 78);
}

#[test]
fn ignores_position_before_world_is_set() {
    let mut srv = Server::new(Default::default());
    let mut game = Game::new(1);
    let client_id: ClientID = 11;
    game.attach_player(Player::new(client_id));
    srv.games.insert(1, game);

    let packet = Packet::new(
        Action::SET_POSITION,
        &std::iter::empty()
            .chain(&123i16.to_le_bytes())
            .chain(&456i16.to_le_bytes())
            .chain(&78i16.to_le_bytes())
            .copied()
            .collect::<Vec<_>>(),
    );

    srv.set_position(&packet, client_id).unwrap();

    let game = srv.games.get(&1).unwrap();
    let player = game.get_player(client_id).unwrap();
    assert_eq!(player.pos.x, 0);
    assert_eq!(player.pos.y, 0);
    assert_eq!(player.screen_y_half_size, 0);
}

#[test]
fn rejects_malformed_position_packet() {
    let mut srv = Server::new(Default::default());
    let mut game = Game::new(1);
    let client_id: ClientID = 11;
    game.attach_player(Player::new(client_id));
    srv.games.insert(1, game);

    let err = srv
        .set_position(&Packet::new(Action::SET_POSITION, &[1, 2]), client_id)
        .unwrap_err();

    match err {
        OnUpdateError::SetPositionError(SetPositionError::InvalidPayloadSize {
            expected,
            actual,
        }) => {
            assert_eq!(expected, 6);
            assert_eq!(actual, 2);
        }
        other => panic!("unexpected error: {other:?}"),
    }
}

#[test]
fn position_of_a_stranger_is_turned_down() {
    let mut srv = Server::new(Default::default());
    assert!(matches!(
        srv.set_position(&Packet::new(Action::SET_POSITION, &[0; 6]), 5),
        Err(OnUpdateError::SetPositionError(SetPositionError::PlayerNotFound(5)))
    ));
}

#[test]
fn restore_connection_rebinds_player_to_new_client_id() {
    let mut srv = Server::new(Default::default());
    let mut game = Game::new(1);
    let old_client_id: ClientID = 11;
    let new_client_id: ClientID = 22;
    let bind_id = game.attach_player(Player::new(old_client_id)).unwrap();
    game.get_mut_player(old_client_id).unwrap().disconnected_until = Some(60 * 1000);
    srv.games.insert(1, game);

    let packet = Packet::new(
        Action::RESTORE_CONNECTION,
        &[
            1u32.to_le_bytes()[0],
            1u32.to_le_bytes()[1],
            1u32.to_le_bytes()[2],
            1u32.to_le_bytes()[3],
            bind_id,
        ],
    );

    let response = srv.restore_connection(&packet, new_client_id).unwrap();

    match response {
        OnUpdateOk::Response(packet) => {
            assert_eq!(packet.action, Action::RESTORE_CONNECTION_RESPONSE);
            assert_eq!(packet.data, vec![1]);
        }
        other => panic!("unexpected response: {other:?}"),
    }

    let game = srv.games.get(&1).unwrap();
    let player = game.get_player(new_client_id).unwrap();
    assert_eq!(player.bind.unwrap().id(), bind_id);
    assert!(player.disconnected_until.is_none());
    assert!(game.get_player(old_client_id).is_none());
}

#[test]
fn restore_connection_returns_zero_for_missing_player() {
    let mut srv = Server::new(Default::default());
    srv.games.insert(1, Game::new(1));

    let packet = Packet::new(
        Action::RESTORE_CONNECTION,
        &[
            1u32.to_le_bytes()[0],
            1u32.to_le_bytes()[1],
            1u32.to_le_bytes()[2],
            1u32.to_le_bytes()[3],
            1,
        ],
    );

    let response = srv.restore_connection(&packet, 22).unwrap();

    match response {
        OnUpdateOk::Response(packet) => {
            assert_eq!(packet.action, Action::RESTORE_CONNECTION_RESPONSE);
            assert_eq!(packet.data, vec![0]);
        }
        other => panic!("unexpected response: {other:?}"),
    }
}

#[test]
fn old_connection_is_forgotten_when_a_player_comes_back() {
    let (mut srv, old) = make_server_in_world();
    let _rx_old = connect(&mut srv, old);
    let _rx_new = connect(&mut srv, 33);
    srv.restore_connection(&Packet::new(Action::RESTORE_CONNECTION, &[1, 0, 0, 0, 1]), 33)
        .unwrap();
    assert_eq!(srv.clients.iter().map(|c| c.id).collect::<Vec<_>>(), vec![33]);
    srv.expire_disconnected_players(u64::MAX);
    assert!(srv.games.get(&1).unwrap().get_player(33).is_some());
}

#[test]
fn restore_needs_a_whole_payload() {
    let (mut srv, _) = make_server_in_world();
    assert!(matches!(
        srv.restore_connection(&Packet::new(Action::RESTORE_CONNECTION, &[1, 0, 0, 0]), 33),
        Err(OnUpdateError::RestoreConnectionError(RestoreConnectionError::PayloadInvalid))
    ));
}
