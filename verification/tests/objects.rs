//! Objects that are created, updated and deleted.

use tokio::sync::mpsc;

use vangers_srv::callback::create_object::CreateObjectError;
use vangers_srv::callback::delete_object::DeleteObjectError;
use vangers_srv::callback::update_object::UpdateObjectError;
use vangers_srv::callback::OnUpdateError;
use vangers_srv::client::{Client, ClientID};
use vangers_srv::game::{Game, World};
use vangers_srv::player::Player;
use vangers_srv::protocol::{Action, Packet};
use vangers_srv::server::Server;
use vangers_srv::vanject::{DecodedVanjectId, Vanject, VanjectError, NID};

fn make_id(station: i32, world: i32, nid: i32, counter: i32) -> i32 {
    (station << 26) | (world << 22) | nid | counter
}

fn make_item_create_payload(id: i32, linked_id: i32, net_owner: i32) -> Vec<u8> {
    std::iter::empty()
        .chain(&id.to_le_bytes())
        .chain(&6i32.to_le_bytes())
        .chain(&10i16.to_le_bytes())
        .chain(&20i16.to_le_bytes())
        .chain(&15i16.to_le_bytes())
        .chain(&[7u8])
        .chain(&linked_id.to_le_bytes())
        .chain(&30i16.to_le_bytes())
        .chain(&[8u8])
        .chain(&9i32.to_le_bytes())
        .chain(&10i32.to_le_bytes())
        .chain(&[0u8])
        .chain(&11i16.to_le_bytes())
        .chain(&12i16.to_le_bytes())
        .chain(&13i16.to_le_bytes())
        .chain(&net_owner.to_le_bytes())
        .copied()
        .collect()
}

fn make_vanject(id: i32, player_bind_id: u8) -> Vanject {
    let mut vanject = Vanject::create_from_slice(
        &std::iter::empty()
            .chain(&id.to_le_bytes())
            .chain(&6i32.to_le_bytes())
            .chain(&10i16.to_le_bytes())
            .chain(&20i16.to_le_bytes())
            .chain(&15i16.to_le_bytes())
            .chain(&[1, 2, 3])
            .copied()
            .collect::<Vec<_>>(),
    )
    .unwrap();
    vanject.player_bind_id = player_bind_id;
    vanject
}

fn connect(srv: &mut Server, id: ClientID) -> mpsc::Receiver<Vec<u8>> {
    let (tx, rx) = mpsc::channel::<Vec<u8>>(100);
    srv.add_client(Client::with_queue(id, tx));
    rx
}

fn received(rx: &mut mpsc::Receiver<Vec<u8>>) -> Vec<Packet> {
    let mut packets = Vec::new();
    while let Ok(bytes) = rx.try_recv() {
        packets.push(Packet::from_slice(&bytes));
    }
    packets
}

fn actions(packets: &[Packet]) -> Vec<Action> {
    packets.iter().map(|p| p.action).collect()
}

fn make_server_with_player() -> (Server, ClientID) {
    let mut srv = Server::new(Default::default());
    let mut game = Game::new(1);
    let world = World::new(1, 100);
    game.worlds.push(world);

    let player: ClientID = 11;
    game.attach_player(Player::new(player));
    game.place_player(player, &world);

    srv.games.insert(1, game);
    (srv, player)
}

fn insert_item_vanject(srv: &mut Server, id: i32, owner: u8, linked_id: i32, net_owner: i32) {
    let mut vanject =
        Vanject::create_from_slice(&make_item_create_payload(id, linked_id, net_owner)).unwrap();
    vanject.player_bind_id = owner;
    srv.games.get_mut(&1).unwrap().vanjects.insert(id, vanject);
}

#[test]
fn rejects_item_create_when_paired_item_already_exists() {
    let (mut srv, player) = make_server_with_player();
    let existing_stuff = make_id(1, 1, NID::STUFF, 91);
    let new_device = make_id(1, 1, NID::DEVICE, 91);
    insert_item_vanject(&mut srv, existing_stuff, 1, new_device, 0);

    let packet = Packet::new(
        Action::CREATE_OBJECT,
        &make_item_create_payload(new_device, existing_stuff, 1),
    );

    let err = srv.create_object(&packet, player).unwrap_err();
    match err {
        OnUpdateError::CreateObjectError(CreateObjectError::PairedItemAlreadyExists(
            id,
            paired_id,
        )) => {
            assert_eq!(id, new_device);
            assert_eq!(paired_id, existing_stuff);
        }
        other => panic!("unexpected error: {other:?}"),
    }

    let game = srv.games.get(&1).unwrap();
    assert!(game.vanjects.contains_key(&existing_stuff));
    assert!(!game.vanjects.contains_key(&new_device));
}

fn make_two_players() -> (Server, ClientID, ClientID) {
    let (mut srv, player) = make_server_with_player();
    let other: ClientID = 22;
    let game = srv.games.get_mut(&1).unwrap();
    game.attach_player(Player::new(other));
    game.place_player(other, &World::new(1, 100));
    (srv, player, other)
}

fn create_payload(id: i32, body: &[u8]) -> Vec<u8> {
    std::iter::empty()
        .chain(&id.to_le_bytes())
        .chain(&6i32.to_le_bytes())
        .chain(&10i16.to_le_bytes())
        .chain(&20i16.to_le_bytes())
        .chain(&15i16.to_le_bytes())
        .chain(body)
        .copied()
        .collect()
}

#[test]
fn created_object_belongs_to_its_sender_and_is_shown_to_its_world() {
    let (mut srv, player, other) = make_two_players();
    let mut mine = connect(&mut srv, player);
    let mut theirs = connect(&mut srv, other);
    let id = make_id(1, 1, NID::SHELL, 4);

    let packet = Packet::new(Action::CREATE_OBJECT, &create_payload(id, &[5, 5]));
    srv.create_object(&packet, player).unwrap();

    let vanject = srv.games.get(&1).unwrap().vanjects.get(&id).unwrap();
    assert_eq!(vanject.player_bind_id, 1);
    assert_eq!(vanject.radius, 15);
    let told = received(&mut theirs);
    assert_eq!(actions(&told), vec![Action::UPDATE_OBJECT]);
    assert_eq!(told[0].data, vanject.to_vangers_byte());
    assert!(received(&mut mine).is_empty());
}

#[test]
fn object_of_another_world_is_not_shown_here_but_a_global_one_is() {
    let (mut srv, player, other) = make_two_players();
    let mut theirs = connect(&mut srv, other);
    let far = make_id(1, 2, NID::SHELL, 4);
    let global = make_id(1, 2, NID::GLOBAL, 4);
    srv.create_object(&Packet::new(Action::CREATE_OBJECT, &create_payload(far, &[])), player)
        .unwrap();
    assert!(received(&mut theirs).is_empty());
    srv.create_object(&Packet::new(Action::CREATE_OBJECT, &create_payload(global, &[])), player)
        .unwrap();
    assert_eq!(actions(&received(&mut theirs)), vec![Action::UPDATE_OBJECT]);
}

#[test]
fn vanger_brings_its_driver_along() {
    let (mut srv, player, other) = make_two_players();
    let mut theirs = connect(&mut srv, other);
    let id = make_id(1, 1, NID::VANGER, 1);
    let body: Vec<u8> = (0..41).collect();

    srv.create_object(&Packet::new(Action::CREATE_OBJECT, &create_payload(id, &body)), player)
        .unwrap();

    let driver = srv.games.get(&1).unwrap().get_player(player).unwrap();
    assert_eq!((driver.pos.x, driver.pos.y), (10, 20));
    assert_eq!(driver.body.as_ref().unwrap().bytes, body);
    assert_eq!(actions(&received(&mut theirs)), vec![Action::UPDATE_OBJECT]);
}

#[test]
fn vanger_without_a_record_is_taken_in_silently() {
    let (mut srv, player, other) = make_two_players();
    let mut theirs = connect(&mut srv, other);
    let id = make_id(1, 1, NID::VANGER, 1);
    srv.create_object(&Packet::new(Action::CREATE_OBJECT, &create_payload(id, &[1])), player)
        .unwrap();
    let game = srv.games.get(&1).unwrap();
    assert!(game.vanjects.contains_key(&id));
    assert!(game.get_player(player).unwrap().body.is_none());
    assert_eq!(game.get_player(player).unwrap().pos.x, 10);
    assert!(received(&mut theirs).is_empty());
}

#[test]
fn second_creation_is_answered_with_what_is_there() {
    let (mut srv, player, other) = make_two_players();
    let id = make_id(1, 1, NID::VANGER, 1);
    let body: Vec<u8> = (0..41).collect();
    let packet = Packet::new(Action::CREATE_OBJECT, &create_payload(id, &body));
    srv.create_object(&packet, player).unwrap();

    let mut mine = connect(&mut srv, player);
    let mut theirs = connect(&mut srv, other);
    srv.create_object(&packet, other).unwrap();

    let told = received(&mut theirs);
    assert_eq!(actions(&told), vec![Action::UPDATE_OBJECT, Action::PLAYERS_POSITION]);
    assert_eq!(told[1].data, vec![1, 10, 0, 20, 0]);
    assert!(received(&mut mine).is_empty());
    let game = srv.games.get(&1).unwrap();
    assert_eq!(game.vanjects.get(&id).unwrap().player_bind_id, 1);
    assert_eq!(game.vanjects.len(), 1);
}

#[test]
fn creation_errors() {
    let (mut srv, player) = make_server_with_player();
    let id = make_id(1, 1, NID::SHELL, 1);
    let packet = Packet::new(Action::CREATE_OBJECT, &create_payload(id, &[]));
    let short = Packet::new(Action::CREATE_OBJECT, &packet.data[..13]);
    assert!(matches!(
        srv.create_object(&short, player),
        Err(OnUpdateError::CreateObjectError(CreateObjectError::SliceToVanjectParse(
            VanjectError::SliceTooSmall(13)
        )))
    ));
    assert!(matches!(
        srv.create_object(&packet, 99),
        Err(OnUpdateError::CreateObjectError(CreateObjectError::PlayerNotFound(99)))
    ));
    srv.games.get_mut(&1).unwrap().get_mut_player(player).unwrap().bind = None;
    assert!(matches!(
        srv.create_object(&packet, player),
        Err(OnUpdateError::CreateObjectError(CreateObjectError::PlayerNotBind(11)))
    ));
}

fn make_server_with_owned_vanject() -> (Server, ClientID, ClientID, i32) {
    let mut srv = Server::new(Default::default());
    let mut game = Game::new(1);

    let owner_client: ClientID = 11;
    let other_client: ClientID = 22;
    game.attach_player(Player::new(owner_client));
    game.attach_player(Player::new(other_client));

    let mut vanject = Vanject::create_from_slice(&[
        2, 1, 1, 1, // id
        6, 0, 0, 0, // time
        10, 0, // x
        20, 0, // y
        15, 0, // radius
        1, 2, 3,
    ])
    .unwrap();
    vanject.player_bind_id = 1;
    let vanject_id = vanject.id;
    game.vanjects.insert(vanject_id, vanject);

    srv.games.insert(1, game);
    (srv, owner_client, other_client, vanject_id)
}

fn make_server_with_owned_item() -> (Server, ClientID, i32, i32) {
    let mut srv = Server::new(Default::default());
    let mut game = Game::new(1);

    let owner_client: ClientID = 11;
    game.attach_player(Player::new(owner_client));

    let stuff_id = make_id(1, 1, NID::STUFF, 92);
    let device_id = make_id(1, 1, NID::DEVICE, 92);
    let mut vanject =
        Vanject::create_from_slice(&make_item_create_payload(stuff_id, device_id, 0)).unwrap();
    vanject.player_bind_id = 1;
    game.vanjects.insert(stuff_id, vanject);

    srv.games.insert(1, game);
    (srv, owner_client, stuff_id, device_id)
}

#[test]
fn rejects_deletes_from_non_owner() {
    let (mut srv, _owner_client, other_client, vanject_id) = make_server_with_owned_vanject();
    let packet = Packet::new(
        Action::DELETE_OBJECT,
        &[
            2, 1, 1, 1, // id
            7, 0, 0, 0, // time
        ],
    );

    let err = srv.delete_object(&packet, other_client).unwrap_err();
    match err {
        OnUpdateError::DeleteObjectError(DeleteObjectError::NotOwner(id, bind_id)) => {
            assert_eq!(id, vanject_id);
            assert_eq!(bind_id, 2);
        }
        other => panic!("unexpected error: {other:?}"),
    }

    let game = srv.games.get(&1).unwrap();
    assert!(game.vanjects.contains_key(&vanject_id));
}

#[test]
fn rejects_legacy_item_transfer_delete_marker_without_mutating_state() {
    let (mut srv, owner_client, stuff_id, _device_id) = make_server_with_owned_item();
    let packet = Packet::new(
        Action::DELETE_OBJECT,
        &std::iter::empty()
            .chain(&stuff_id.to_le_bytes())
            .chain(&7i32.to_le_bytes())
            .chain(&[1u8])
            .copied()
            .collect::<Vec<_>>(),
    );

    let err = srv.delete_object(&packet, owner_client).unwrap_err();
    match err {
        OnUpdateError::DeleteObjectError(DeleteObjectError::LegacyItemTransferDelete(id)) => {
            assert_eq!(id, stuff_id);
        }
        other => panic!("unexpected error: {other:?}"),
    }

    let game = srv.games.get(&1).unwrap();
    assert!(game.vanjects.contains_key(&stuff_id));
}

#[test]
fn accepts_real_item_delete_and_removes_item_state() {
    let (mut srv, owner_client, stuff_id, _device_id) = make_server_with_owned_item();
    let packet = Packet::new(
        Action::DELETE_OBJECT,
        &std::iter::empty()
            .chain(&stuff_id.to_le_bytes())
            .chain(&7i32.to_le_bytes())
            .copied()
            .collect::<Vec<_>>(),
    );

    srv.delete_object(&packet, owner_client).unwrap();

    let game = srv.games.get(&1).unwrap();
    assert!(!game.vanjects.contains_key(&stuff_id));
}

#[test]
fn deletion_is_passed_on_with_the_players_number() {
    let (mut srv, player, other) = make_two_players();
    let id = make_id(1, 1, NID::SHELL, 3);
    srv.games.get_mut(&1).unwrap().vanjects.insert(id, make_vanject(id, 1));
    let mut theirs = connect(&mut srv, other);
    let data: Vec<u8> = id.to_le_bytes().into_iter().chain([7, 0, 0, 0, 1, 9]).collect();
    srv.delete_object(&Packet::new(Action::DELETE_OBJECT, &data), player).unwrap();

    let told = received(&mut theirs);
    let expected: Vec<u8> = id.to_le_bytes().into_iter().chain([1, 7, 0, 0, 0, 1, 9]).collect();
    assert_eq!(told[0].action, Action::DELETE_OBJECT);
    assert_eq!(told[0].data, expected);
    assert!(srv.games.get(&1).unwrap().vanjects.is_empty());
}

#[test]
fn deletion_errors_and_short_deletions() {
    let (mut srv, player) = make_server_with_player();
    let data = make_id(1, 1, NID::SHELL, 3).to_le_bytes();
    let packet = Packet::new(Action::DELETE_OBJECT, &data);
    assert!(!srv.can_read_delete(&packet, player));
    assert!(srv.can_read_delete(&packet, 99));
    assert!(matches!(
        srv.delete_object(&packet, 99),
        Err(OnUpdateError::DeleteObjectError(DeleteObjectError::PlayerNotFound(99)))
    ));
    srv.games.get_mut(&1).unwrap().get_mut_player(player).unwrap().bind = None;
    assert!(srv.can_read_delete(&packet, player));
    assert!(matches!(
        srv.delete_object(&packet, player),
        Err(OnUpdateError::DeleteObjectError(DeleteObjectError::PlayerNotBind(11)))
    ));
    assert!(!srv.can_read_delete(&Packet::new(Action::DELETE_OBJECT, &data[..3]), player));
}

fn make_update_packet(id: i32, time: i32, x: i16, y: i16, body: &[u8]) -> Packet {
    Packet::new(
        Action::UPDATE_OBJECT,
        &std::iter::empty()
            .chain(&id.to_le_bytes())
            .chain(&time.to_le_bytes())
            .chain(&x.to_le_bytes())
            .chain(&y.to_le_bytes())
            .chain(body)
            .copied()
            .collect::<Vec<_>>(),
    )
}

fn make_server_with_owned_slot() -> (Server, ClientID, ClientID, i32) {
    let mut srv = Server::new(Default::default());
    let mut game = Game::new(1);

    let owner_client: ClientID = 11;
    let other_client: ClientID = 22;
    game.attach_player(Player::new(owner_client));
    game.attach_player(Player::new(other_client));

    let world = World::new(1, 100);
    game.worlds.push(world);
    game.place_player(owner_client, &world);
    game.place_player(other_client, &world);

    let vanject = make_vanject(make_id(1, 1, NID::SLOT, 2), 1);
    let vanject_id = vanject.id;
    game.vanjects.insert(vanject_id, vanject);

    srv.games.insert(1, game);
    (srv, owner_client, other_client, vanject_id)
}

#[test]
fn rejects_updates_from_non_owner() {
    let (mut srv, _owner_client, other_client, vanject_id) = make_server_with_owned_slot();
    let packet = make_update_packet(vanject_id, 7, 11, 21, &[9, 9]);

    let err = srv.update_object(&packet, other_client).unwrap_err();
    match err {
        OnUpdateError::UpdateObjectError(UpdateObjectError::NotOwner(id, bind_id)) => {
            assert_eq!(id, vanject_id);
            assert_eq!(bind_id, 2);
        }
        other => panic!("unexpected error: {other:?}"),
    }

    let game = srv.games.get(&1).unwrap();
    let vanject = game.vanjects.get(&vanject_id).unwrap();
    assert_eq!(vanject.time, 6);
    assert_eq!(vanject.pos.x, 10);
    assert_eq!(vanject.pos.y, 20);
    assert_eq!(vanject.player_bind_id, 1);
}

#[test]
fn allows_static_world_object_update_from_non_owner_in_same_world() {
    let mut srv = Server::new(Default::default());
    let mut game = Game::new(1);

    let owner_client: ClientID = 11;
    let other_client: ClientID = 22;
    game.attach_player(Player::new(owner_client));
    game.attach_player(Player::new(other_client));

    let world = World::new(1, 100);
    game.worlds.push(world);
    game.place_player(owner_client, &world);
    game.place_player(other_client, &world);

    let tnt_id = make_id(1, 1, NID::TNT, 2);
    game.vanjects.insert(tnt_id, make_vanject(tnt_id, 1));

    srv.games.insert(1, game);

    let packet = make_update_packet(tnt_id, 7, 11, 21, &[9, 9, 9, 9]);
    srv.update_object(&packet, other_client).unwrap();

    let game = srv.games.get(&1).unwrap();
    let vanject = game.vanjects.get(&tnt_id).unwrap();
    assert_eq!(vanject.time, 7);
    assert_eq!(vanject.pos.x, 11);
    assert_eq!(vanject.pos.y, 21);
    assert_eq!(vanject.body, vec![9, 9, 9, 9]);
    assert_eq!(vanject.player_bind_id, 2);
}

#[test]
fn allows_global_object_update_from_non_owner_without_world() {
    let mut srv = Server::new(Default::default());
    let mut game = Game::new(1);

    let owner_client: ClientID = 11;
    let other_client: ClientID = 22;
    game.attach_player(Player::new(owner_client));
    game.attach_player(Player::new(other_client));

    let global_id = make_id(0, 1, NID::GLOBAL, 83);
    game.vanjects.insert(global_id, make_vanject(global_id, 1));

    srv.games.insert(1, game);

    let packet = make_update_packet(global_id, 7, 11, 21, &[9, 9, 9, 9]);
    srv.update_object(&packet, other_client).unwrap();

    let game = srv.games.get(&1).unwrap();
    let vanject = game.vanjects.get(&global_id).unwrap();
    assert_eq!(vanject.time, 7);
    assert_eq!(vanject.pos.x, 11);
    assert_eq!(vanject.pos.y, 21);
    assert_eq!(vanject.body, vec![9, 9, 9, 9]);
    assert_eq!(vanject.player_bind_id, 2);
}

#[test]
fn rejects_non_global_update_from_other_world() {
    let mut srv = Server::new(Default::default());
    let mut game = Game::new(1);

    let client_id: ClientID = 11;
    game.attach_player(Player::new(client_id));

    let player_world = World::new(1, 100);
    game.worlds.push(player_world);
    game.place_player(client_id, &player_world);

    let sensor_id = make_id(1, 2, NID::SENSOR, 1);
    game.vanjects.insert(sensor_id, make_vanject(sensor_id, 1));

    srv.games.insert(1, game);

    let packet = make_update_packet(sensor_id, 7, 11, 21, &[9]);
    let err = srv.update_object(&packet, client_id).unwrap_err();
    match err {
        OnUpdateError::UpdateObjectError(UpdateObjectError::WrongWorld(
            id,
            world,
            player_world,
        )) => {
            assert_eq!(id, sensor_id);
            assert_eq!(world, 2);
            assert_eq!(player_world, 1);
        }
        other => panic!("unexpected error: {other:?}"),
    }
}

#[test]
fn update_is_shown_to_the_others_in_the_world() {
    let (mut srv, owner, other, id) = make_server_with_owned_slot();
    let mut mine = connect(&mut srv, owner);
    let mut theirs = connect(&mut srv, other);
    srv.update_object(&make_update_packet(id, 7, 11, 21, &[9, 8]), owner).unwrap();

    let told = received(&mut theirs);
    let expected: Vec<u8> =
        id.to_le_bytes().into_iter().chain([1, 7, 0, 0, 0, 11, 0, 21, 0, 15, 0, 9, 8]).collect();
    assert_eq!(told[0].data, expected);
    assert!(received(&mut mine).is_empty());
}

#[test]
fn update_errors() {
    let (mut srv, owner, _other, id) = make_server_with_owned_slot();
    let error = |srv: &mut Server, packet: &Packet, client_id: ClientID| match srv
        .update_object(packet, client_id)
        .unwrap_err()
    {
        OnUpdateError::UpdateObjectError(err) => err,
        other => panic!("unexpected error: {other:?}"),
    };
    let short = Packet::new(Action::UPDATE_OBJECT, &[1, 2, 3]);
    assert_eq!(error(&mut srv, &short, owner), UpdateObjectError::SliceTooSmall);
    let packet = make_update_packet(id, 7, 11, 21, &[]);
    assert_eq!(error(&mut srv, &packet, 99), UpdateObjectError::PlayerNotFound(99));
    let half = Packet::new(Action::UPDATE_OBJECT, &packet.data[..11]);
    assert_eq!(
        error(&mut srv, &half, owner),
        UpdateObjectError::SliceToVanjectParse(VanjectError::SliceTooSmall(11))
    );
    assert_eq!(srv.games.get(&1).unwrap().vanjects.get(&id).unwrap().time, 6);
    let missing = make_update_packet(id + 1, 7, 11, 21, &[]);
    assert_eq!(error(&mut srv, &missing, owner), UpdateObjectError::VanjectNotFound(id + 1));
    srv.games.get_mut(&1).unwrap().get_mut_player(owner).unwrap().world = None;
    assert_eq!(error(&mut srv, &packet, owner), UpdateObjectError::PlayerWorldEmpty(owner));
    srv.games.get_mut(&1).unwrap().get_mut_player(owner).unwrap().bind = None;
    assert_eq!(error(&mut srv, &packet, owner), UpdateObjectError::PlayerNotBind(owner));
}

#[test]
fn id_is_taken_apart() {
    let decoded = DecodedVanjectId::new(make_id(33, 5, NID::VANGER, 0x1234));
    assert_eq!(decoded.station, 33);
    assert_eq!(decoded.world, 5);
    assert_eq!(decoded.type_id, NID::VANGER);
    assert_eq!(decoded.counter, 0x1234);
    assert!(decoded.private && decoded.players_object);
    assert!(!decoded.global && !decoded.static_object);
}

#[test]
fn bind_to_player_needs_a_number() {
    let mut vanject = make_vanject(1, 0);
    assert_eq!(vanject.bind_to_player(&Player::new(1)), Err(VanjectError::PlayerNotBind));
}
