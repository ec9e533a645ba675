//! The server as a whole: lists, broken connections, events, who hears what.

use tokio::sync::mpsc;

use vangers_srv::callback::close_socket::CloseSocketError;
use vangers_srv::callback::on_update::Handled;
use vangers_srv::callback::top_list_query::{is_rated_above, TopListQueryError};
use vangers_srv::callback::view::{log_level, logs_completion, Logged};
use vangers_srv::callback::{OnUpdateError, OnUpdateOk};
use vangers_srv::client::{Client, ClientID, Connection, MpscData};
use vangers_srv::disconnect::DISCONNECTED_PLAYER_TTL;
use vangers_srv::events::{Event, Flow, Input};
use vangers_srv::game::{Config, Game, RemovedPlayer, Type as GameType, World};
use vangers_srv::player::{Body as PlayerBody, Player, Status};
use vangers_srv::protocol::{Action, Packet};
use vangers_srv::server::{client_ids_in_world, Recipients, Server, ServerConfig};

fn connect(srv: &mut Server, id: ClientID) -> mpsc::Receiver<Vec<u8>> {
    let (tx, rx) = mpsc::channel::<Vec<u8>>(100);
    srv.add_client(Client::with_queue(id, tx));
    rx
}

fn received(rx: &mut mpsc::Receiver<Vec<u8>>) -> Vec<Packet> {
    let mut packets = Vec::new();
    while let Ok(bytes) = rx.try_recv() {
        packets.push(Packet::from_slice(&bytes));
    }
    packets
}

fn actions(packets: &[Packet]) -> Vec<Action> {
    packets.iter().map(|p| p.action).collect()
}

fn body_with_rating(rating: f32) -> PlayerBody {
    let mut bytes = vec![1u8, 2u8, 3u8, 4u8]
        .iter()
        .chain(&5u32.to_le_bytes())
        .chain(&rating.to_le_bytes())
        .chain(&[7u8])
        .chain(&8i16.to_le_bytes())
        .chain(&9i16.to_le_bytes())
        .chain(&10u32.to_le_bytes())
        .chain(&11u32.to_le_bytes())
        .copied()
        .collect::<Vec<_>>();
    bytes.extend_from_slice(&[0; 16]);
    PlayerBody::from_slice(&bytes).unwrap()
}

fn request(mode: GameType) -> Packet {
    Packet::new(Action::TOP_LIST_QUERY, &[mode as u8])
}

#[test]
fn top_list_response_contains_sorted_current_and_removed_players() {
    let mut srv = Server::new(Default::default());
    let mut game = Game::new(1);
    game.config = Some(Config::new(GameType::PASSEMBLOSS));

    let mut p1 = Player::new(11);
    p1.set_auth(b"alpha\0", b"\0");
    p1.body = Some(body_with_rating(5.0));
    game.attach_player(p1);

    let mut p2 = Player::new(22);
    p2.set_auth(b"beta\0", b"\0");
    p2.body = Some(body_with_rating(9.0));
    game.attach_player(p2);

    let mut p3 = Player::new(33);
    p3.set_auth(b"gamma\0", b"\0");
    p3.body = Some(body_with_rating(7.0));
    p3.status = Status::FINISHED;
    game.attach_player(p3);
    let snapshot = RemovedPlayer::from_player(game.get_player(33).unwrap()).unwrap();
    game.removed_players.push(snapshot);
    game.players.retain(|p| p.client_id != 33);

    srv.games.insert(1, game);

    let response = srv.top_list_query(&request(GameType::PASSEMBLOSS), 1).unwrap();
    let packet = match response {
        OnUpdateOk::Response(packet) => packet,
        other => panic!("unexpected response: {other:?}"),
    };

    assert_eq!(packet.action, Action::TOP_LIST_RESPONSE);
    assert_eq!(packet.data[0], GameType::PASSEMBLOSS as u8);
    assert_eq!(packet.data[1], 3);

    let mut cursor = 2usize;
    let mut names = Vec::new();
    let mut ratings = Vec::new();
    for _ in 0..3 {
        let end = packet.data[cursor..]
            .iter()
            .position(|&b| b == 0)
            .map(|pos| cursor + pos + 1)
            .unwrap();
        names.push(packet.data[cursor..end].to_vec());
        cursor = end;
        let mut rating = [0u8; 4];
        rating.copy_from_slice(&packet.data[cursor..cursor + 4]);
        ratings.push(f32::from_le_bytes(rating));
        cursor += 4;
    }

    assert_eq!(
        names,
        vec![b"beta\0".to_vec(), b"gamma\0".to_vec(), b"alpha\0".to_vec()]
    );
    assert_eq!(ratings, vec![9.0, 7.0, 5.0]);
}

#[test]
fn top_list_response_filters_by_game_mode() {
    let mut srv = Server::new(Default::default());

    let mut game1 = Game::new(1);
    game1.config = Some(Config::new(GameType::PASSEMBLOSS));
    let mut p1 = Player::new(11);
    p1.set_auth(b"pass\0", b"\0");
    p1.body = Some(body_with_rating(9.0));
    game1.attach_player(p1);
    srv.games.insert(1, game1);

    let mut game2 = Game::new(2);
    game2.config = Some(Config::new(GameType::MECHOSOMA));
    let mut p2 = Player::new(22);
    p2.set_auth(b"mech\0", b"\0");
    p2.body = Some(body_with_rating(99.0));
    game2.attach_player(p2);
    srv.games.insert(2, game2);

    let response = srv.top_list_query(&request(GameType::PASSEMBLOSS), 1).unwrap();
    let packet = match response {
        OnUpdateOk::Response(packet) => packet,
        other => panic!("unexpected response: {other:?}"),
    };

    assert_eq!(packet.action, Action::TOP_LIST_RESPONSE);
    assert_eq!(packet.data[0], GameType::PASSEMBLOSS as u8);
    assert_eq!(packet.data[1], 1);
}

#[test]
fn top_list_names_ten_at_most_and_keeps_ties_in_order() {
    let mut srv = Server::new(Default::default());
    let mut game = Game::new(1);
    game.config = Some(Config::new(GameType::VAN_WAR));
    for n in 0..12u8 {
        let mut p = Player::new(100 + n as usize);
        p.set_auth(&[b'a' + n, 0], b"\0");
        p.body = Some(body_with_rating(if n == 11 { -0.0 } else if n == 0 { -3.5 } else { 0.0 }));
        game.attach_player(p);
    }
    srv.games.insert(1, game);
    let packet = match srv.top_list_query(&request(GameType::VAN_WAR), 1).unwrap() {
        OnUpdateOk::Response(packet) => packet,
        other => panic!("unexpected response: {other:?}"),
    };
    assert_eq!(packet.data[1], 10);
    assert_eq!(packet.data.len(), 2 + 10 * 6);
    for n in 0..10 {
        assert_eq!(packet.data[2 + 6 * n], b'b' + n as u8);
    }
}

#[test]
fn top_list_needs_a_mode_and_a_query() {
    let mut srv = Server::new(Default::default());
    assert!(matches!(
        srv.top_list_query(&Packet::new(Action::TOP_LIST_QUERY, &[]), 1),
        Err(OnUpdateError::TopListQueryError(TopListQueryError::ModeEmpty))
    ));
    assert!(matches!(
        srv.top_list_query(&Packet::new(Action::LEAVE_WORLD, &[1]), 1),
        Err(OnUpdateError::ResponsePacketTypeNotExist(Action::LEAVE_WORLD))
    ));
}

#[test]
fn ratings_are_ordered_as_numbers() {
    let values = [
        f32::NEG_INFINITY, -9.5, -1.0, -1e-40, 0.0, 1e-40, 0.5, 1.0, 7.25, 1e30, f32::INFINITY,
    ];
    for a in values {
        for b in values {
            assert_eq!(is_rated_above(a.to_bits(), b.to_bits()), a > b);
        }
        assert!(!is_rated_above(f32::NAN.to_bits(), a.to_bits()));
        assert!(!is_rated_above(a.to_bits(), f32::NAN.to_bits()));
    }
    assert!(!is_rated_above((0.0f32).to_bits(), (-0.0f32).to_bits()));
}

#[test]
fn selects_only_players_from_requested_world() {
    let mut game = Game::new(1);
    game.attach_player(Player::new(11));
    game.attach_player(Player::new(22));

    let world1 = World::new(1, 100);
    let world2 = World::new(2, 100);
    game.worlds.push(world1);
    game.worlds.push(world2);
    game.place_player(11, &world1);
    game.place_player(22, &world2);

    let ids = client_ids_in_world(&game, 1, Some(11), false);
    assert!(ids.is_empty());

    let ids = client_ids_in_world(&game, 1, Some(11), true);
    assert_eq!(ids, vec![11]);
}

#[test]
fn expire_disconnected_players_forces_close_after_ttl() {
    let mut srv = Server::new(Default::default());
    let mut game = Game::new(1);
    let client_id = 11;
    game.attach_player(Player::new(client_id));
    let now_ms = 5_000;
    {
        let player = game.get_mut_player(client_id).unwrap();
        player.disconnected_until = Some(now_ms - 1_000);
    }
    srv.games.insert(1, game);

    srv.expire_disconnected_players(now_ms);

    assert!(srv.games.get(&1).is_none());
}

fn two_players() -> Server {
    let mut srv = Server::new(Default::default());
    let mut game = Game::new(1);
    game.attach_player(Player::new(11));
    game.attach_player(Player::new(22));
    srv.games.insert(1, game);
    srv
}

#[test]
fn broken_connection_can_be_restored_for_a_minute() {
    let mut srv = two_players();
    srv.mark_player_disconnected(11, 1_000);
    srv.mark_player_disconnected(99, 1_000);
    let deadline = srv.games.get(&1).unwrap().get_player(11).unwrap().disconnected_until;
    assert_eq!(deadline, Some(61_000));
    assert_eq!(DISCONNECTED_PLAYER_TTL, 60_000);

    srv.expire_disconnected_players(60_999);
    assert!(srv.games.get(&1).unwrap().get_player(11).is_some());
    srv.expire_disconnected_players(61_000);
    let game = srv.games.get(&1).unwrap();
    assert!(game.get_player(11).is_none());
    assert!(game.get_player(22).is_some());
}

#[test]
fn player_who_leaves_is_remembered() {
    let mut srv = two_players();
    let player = srv.games.get_mut(&1).unwrap().get_mut_player(11).unwrap();
    player.set_auth(b"abc\0", b"\0");
    player.body = Some(body_with_rating(2.0));
    let packet = Packet::new(Action::CLOSE_SOCKET, &[]);
    srv.close_socket(&packet, 11).unwrap();
    let game = srv.games.get(&1).unwrap();
    assert_eq!(game.removed_players.len(), 1);
    assert_eq!(game.removed_players[0].name, b"abc\0".to_vec());
    assert_eq!(game.players.len(), 1);
    assert!(matches!(
        srv.close_socket(&packet, 11),
        Err(OnUpdateError::CloseSocketError(CloseSocketError::PlayerNotFound(11)))
    ));
    srv.close_socket(&packet, 22).unwrap();
    assert!(srv.games.get(&1).is_none());
}

#[test]
fn only_the_selected_players_of_the_game_hear() {
    let mut srv = two_players();
    let mut rx11 = connect(&mut srv, 11);
    let mut rx22 = connect(&mut srv, 22);
    let mut rx33 = connect(&mut srv, 33);
    let packet = Packet::new(Action::PLAYERS_DATA, &[1]);
    let mut heard = move || {
        (received(&mut rx11).len(), received(&mut rx22).len(), received(&mut rx33).len())
    };
    srv.notify_player(11, &packet);
    assert_eq!(heard(), (1, 0, 0));
    srv.notify_game(11, &packet);
    assert_eq!(heard(), (0, 1, 0));
    srv.notify_those(22, &packet, Recipients::AllBut(22));
    assert_eq!(heard(), (1, 0, 0));
    srv.notify(22, &packet, |_: &ClientID| true);
    assert_eq!(heard(), (1, 1, 0));
    srv.notify(11, &packet, |id: &ClientID| id % 2 == 0);
    assert_eq!(heard(), (0, 1, 0));
    srv.notify(33, &packet, |_: &ClientID| true);
    srv.notify_game(33, &packet);
    assert_eq!(heard(), (0, 0, 0));

    srv.notify_all(11, &packet);
    assert_eq!(heard(), (1, 1, 1));
    srv.notify_all(33, &packet);
    assert_eq!(heard(), (1, 1, 1));
    srv.notify_all(99, &packet);
    assert_eq!(heard(), (1, 1, 1));

    srv.games.get_mut(&1).unwrap().place_player(22, &World::new(4, 1));
    srv.notify_world(11, 4, &packet, false);
    assert_eq!(heard(), (0, 1, 0));
    srv.notify_world(22, 4, &packet, false);
    assert_eq!(heard(), (0, 0, 0));
    srv.notify_world(22, 4, &packet, true);
    assert_eq!(heard(), (0, 1, 0));
}

#[test]
fn requests_reach_their_handlers() {
    let mut srv = two_players();
    let mut rx = connect(&mut srv, 11);

    let query = Packet::new(Action::TOP_LIST_QUERY, &[0]);
    assert!(matches!(srv.on_update(11, query.clone()), Handled::Replied));
    assert_eq!(actions(&received(&mut rx)), vec![Action::TOP_LIST_RESPONSE]);
    assert!(matches!(srv.on_update(44, query), Handled::Unanswered));

    let position = Packet::new(Action::SET_POSITION, &[]);
    assert!(matches!(
        srv.on_update(11, position),
        Handled::Failed(OnUpdateError::SetPositionError(_))
    ));

    let register = Packet::new(Action::REGISTER_NAME, &[1, 2]);
    match srv.on_update(11, register.clone()) {
        Handled::Elsewhere(packet) => assert_eq!(packet.as_bytes(), register.as_bytes()),
        _ => panic!("names are registered elsewhere"),
    }

    let unknown = Packet::from_slice(&[2, 0, 1, 9]);
    match srv.on_update(11, unknown) {
        Handled::Failed(OnUpdateError::NotImplementedAction(packet)) => {
            assert_eq!(packet.action, Action::UNKNOWN);
            assert_eq!(packet.real_action, 1);
            assert_eq!(packet.data, vec![9]);
        }
        _ => panic!("nobody answers an unknown action"),
    }

    assert!(!srv.can_read(11, &Packet::new(Action::SET_WORLD, &[1, 2])));
    let enter = Packet::new(Action::SET_WORLD, &[1, 2, 0]);
    assert!(srv.can_read(11, &enter));
    assert!(matches!(srv.on_update(11, enter), Handled::Done));
    assert!(srv.games.get(&1).unwrap().get_player(11).unwrap().world.is_some());
}

#[test]
fn outcomes_are_delivered() {
    let mut srv = two_players();
    let mut rx11 = connect(&mut srv, 11);
    let mut rx22 = connect(&mut srv, 22);
    let packet = || Packet::new(Action::PLAYERS_DATA, &[3]);
    let mut rx33 = connect(&mut srv, 33);
    assert!(matches!(srv.deliver(11, OnUpdateOk::Broadcast(packet())), Handled::Announced));
    assert_eq!((received(&mut rx11).len(), received(&mut rx22).len()), (1, 1));
    assert_eq!(received(&mut rx33).len(), 1);
    assert!(matches!(srv.deliver(22, OnUpdateOk::Response(packet())), Handled::Replied));
    assert_eq!((received(&mut rx11).len(), received(&mut rx22).len()), (0, 1));
    assert!(matches!(srv.deliver(11, OnUpdateOk::Complete), Handled::Done));
    assert!(matches!(srv.deliver(7, OnUpdateOk::Response(packet())), Handled::Unanswered));
    assert_eq!((received(&mut rx11).len(), received(&mut rx22).len()), (0, 0));
}

#[test]
fn inputs_change_the_server() {
    let mut srv = two_players();
    let (client, _rx) = Client::new();
    let id: ClientID = client.id;
    assert!(matches!(
        srv.advance(Input::Listener(Some(Event::Add(client))), 0),
        Flow::Continue
    ));
    assert!(srv.clients[0].connection == Connection::Connected);

    let news = Input::Clients(Some(MpscData(id, Connection::Authenticated(3))));
    assert!(matches!(srv.advance(news, 0), Flow::Continue));
    assert!(matches!(srv.clients[0].connection, Connection::Authenticated(3)));
    assert_eq!(srv.clients[0].protocol, 3);

    let news = Input::Clients(Some(MpscData(id, Connection::Connected)));
    srv.advance(news, 0);
    assert!(srv.clients[0].connection == Connection::Connected);
    assert_eq!(srv.clients[0].protocol, 3);

    let query = Packet::new(Action::TOP_LIST_QUERY, &[0]);
    let news = Input::Clients(Some(MpscData(id, Connection::Updated(query))));
    assert!(matches!(srv.advance(news, 0), Flow::Answered(Handled::Replied)));

    let news = Input::Clients(Some(MpscData(11, Connection::Disconnected)));
    srv.advance(news, 10);
    let news = Input::Clients(Some(MpscData(id, Connection::Disconnected)));
    srv.advance(news, 10);
    assert!(srv.clients.is_empty());

    srv.advance(Input::Tick, 60_009);
    assert_eq!(srv.games.get(&1).unwrap().players.len(), 2);
    srv.advance(Input::Tick, 60_010);
    assert_eq!(srv.games.get(&1).unwrap().players.len(), 1);

    assert!(matches!(srv.advance(Input::Listener(Some(Event::Halt)), 0), Flow::Stop));
    assert!(matches!(srv.advance(Input::Listener(None), 0), Flow::Stop));
    assert!(matches!(srv.advance(Input::Clients(None), 0), Flow::Stop));
}

#[test]
fn uptime_is_in_milliseconds_and_starts_again() {
    let srv = Server::new(Default::default());
    assert_eq!(srv.uptime(1_500), 1_500);
    assert_eq!(srv.uptime(u32::MAX as u64), u32::MAX);
    assert_eq!(srv.uptime(u32::MAX as u64 + 6), 5);
}

#[test]
fn game_ids_are_counted_up() {
    let mut srv = Server::new(ServerConfig::default());
    assert_eq!(srv.get_game_uniq_id(), 1);
    assert_eq!(srv.get_game_uniq_id(), 2);
}

#[test]
fn player_gets_the_smallest_free_number() {
    let mut game = Game::new(1);
    assert_eq!(game.attach_player(Player::new(1)), Some(1));
    assert_eq!(game.attach_player(Player::new(2)), Some(2));
    game.players.remove(0);
    assert_eq!(game.attach_player(Player::new(3)), Some(1));
    for n in 3..=63u8 {
        assert_eq!(game.attach_player(Player::new(100 + n as usize)), Some(n));
    }
    assert_eq!(game.attach_player(Player::new(4)), None);
}

#[test]
fn game_that_takes_an_id_replaces_the_one_that_had_it() {
    let mut srv = two_players();
    assert!(srv.games.insert(1, Game::new(7)).is_some());
    assert_eq!(srv.games.get(&1).unwrap().id, 7);
    assert!(srv.get_game_by_clientid(11).is_none());
    assert!(srv.games.insert(2, Game::new(2)).is_none());
}

#[test]
fn log_leaves_out_what_the_settings_say() {
    let mut conf = ServerConfig::default();
    assert_eq!(log_level(Action::SERVER_TIME_QUERY, &conf), Logged::Trace);
    assert_eq!(log_level(Action::GAMES_LIST_QUERY, &conf), Logged::Debug);
    assert_eq!(log_level(Action::ITEM_STATE, &conf), Logged::Trace);
    assert_eq!(log_level(Action::SET_WORLD, &conf), Logged::Info);
    conf.supress_log_server_time = true;
    conf.supress_log_games_list_query = true;
    assert_eq!(log_level(Action::SERVER_TIME, &conf), Logged::Nothing);
    assert_eq!(log_level(Action::GAMES_LIST_QUERY, &conf), Logged::Nothing);
    assert!(logs_completion(Action::SET_WORLD));
    assert!(!logs_completion(Action::UPDATE_OBJECT));
}
