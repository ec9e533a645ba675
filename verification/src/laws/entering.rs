//! What becomes of players who enter a world, and of what they are shown.

use vstd::prelude::*;

use crate::bytes::{i16_bytes, le_i16};
use crate::callback::leave_world::{
    game_left, leave_packets, leave_world_effect, lemma_game_left, LeaveWorldError,
};
use crate::callback::set_world::{
    entry_packets, game_entered, has_world, is_world_at, lemma_game_entered,
    set_world_outcome, world_in, world_opened, world_with, SetWorldError,
};
use crate::callback::total_players_data_query::roster_packet;
use crate::callback::OnUpdateError;
use crate::client::ClientID;
use crate::game::{
    lemma_player_change_keeps_place, lemma_player_of, player_at, player_of, GameModel, World,
};
use crate::games::{
    game_at, game_of, games_wf, has_game, lemma_game_change_keeps_place, lemma_game_of,
    lemma_game_step, with_game,
};
use crate::player::{PlayerModel, Status};
use crate::protocol::{packet_of, Action, PacketModel};
use crate::server::{
    lemma_told_each_keeps_games, told_all, told_each, told_game, Recipients, ServerModel,
};

use super::hearing::{
    got, just, lemma_all_hear, lemma_each_is_heard, lemma_game_hears, lemma_heard_is_told,
    lemma_heard_nothing, lemma_news_add_up, lemma_same_connections, lemma_who_is_meant,
    only_its_game, others, plays, told_by,
};
use super::objects::plays_somewhere;
use super::wire::lemma_read_is_written;
use super::worlds::{
    but_for_player, cleared, farewells, introductions, lemma_leave, lemma_snapshot_shows,
    lists_the_gone, lists_the_shown,
};

verus! {

/// Whether a game has a world with the number `id`.
pub open spec fn knows_world(g: GameModel, id: u8) -> bool {
    exists|j: int| 0 <= j < g.worlds.len() && (#[trigger] g.worlds[j]).id == id
}

/// Whether the first world of a game with the number `id` is `y_size` long.
pub open spec fn world_measures(g: GameModel, id: u8, y_size: i16) -> bool {
    exists|j: int|
        0 <= j < g.worlds.len() && (#[trigger] g.worlds[j]) == (World { id, y_size }) && forall|
            i: int,
        |
            0 <= i < j ==> (#[trigger] g.worlds[i]).id != id
}

/// Whether a player is in another world than the one with the number `id`.
pub open spec fn comes_from_elsewhere(p: PlayerModel, id: u8) -> bool {
    p.world is Some && p.world->0.id != id
}

/// What a player who enters is told: that it has entered and whether the world
/// is new to the game; and between two marks all players of the game, as they
/// are now, and the objects that it is shown.
pub open spec fn welcome(g: GameModel, h: GameModel, world_id: u8, shown: Seq<i32>) -> Seq<
    PacketModel,
> {
    seq![
        packet_of(
            Action::SET_WORLD_RESPONSE,
            seq![world_id, if knows_world(g, world_id) { 0u8 } else { 1u8 }],
        ),
        packet_of(Action::WORLD_SNAPSHOT_BEGIN, seq![world_id]),
        roster_packet(h),
    ] + introductions(h, shown) + seq![packet_of(Action::WORLD_SNAPSHOT_END, seq![world_id])]
}

/// Worlds are known as they are found.
proof fn lemma_worlds(g: GameModel, id: u8)
    ensures
        has_world(g.worlds, id) == knows_world(g, id),
        has_world(g.worlds, id) ==> world_measures(g, id, world_with(g.worlds, id).y_size),
{
    let worlds = g.worlds;
    if has_world(worlds, id) {
        let i = choose|i: int| is_world_at(worlds, id, i);
        assert(is_world_at(worlds, id, i));
        assert(worlds[i] == World { id, y_size: world_with(worlds, id).y_size });
    }
    if knows_world(g, id) {
        let j = choose|j: int| 0 <= j < worlds.len() && (#[trigger] worlds[j]).id == id;
        lemma_first_world(worlds, id, j);
    }
}

proof fn lemma_first_world(worlds: Seq<World>, id: u8, j: int)
    requires
        0 <= j < worlds.len(),
        worlds[j].id == id,
    ensures
        has_world(worlds, id),
    decreases j,
{
    if forall|i: int| 0 <= i < j ==> (#[trigger] worlds[i]).id != id {
        assert(is_world_at(worlds, id, j));
    } else {
        let i = choose|i: int| 0 <= i < j && (#[trigger] worlds[i]).id == id;
        lemma_first_world(worlds, id, i);
    }
}

/// The game that a player is in once it has left another world, if it had to.
pub open spec fn ready(s: ServerModel, client_id: ClientID, world_id: u8) -> ServerModel {
    let p = player_of(game_of(s.games, client_id), client_id);
    if comes_from_elsewhere(p, world_id) {
        leave_world_effect(s, client_id)
    } else {
        s
    }
}

/// Leaving another world first, as it is told.
proof fn lemma_ready(s: ServerModel, client_id: ClientID, world_id: u8) -> (gone: Seq<i32>)
    requires
        games_wf(s.games),
        has_game(s.games, client_id),
        player_of(game_of(s.games, client_id), client_id).bind is Some,
    ensures
        ({
            let g = game_of(s.games, client_id);
            let p = player_of(g, client_id);
            let k = player_at(g.players, client_id);
            let bind_id = p.bind->0.id;
            let left = ready(s, client_id, world_id);
            let f = game_of(left.games, client_id);
            let away = comes_from_elsewhere(p, world_id);
            &&& games_wf(left.games) && has_game(left.games, client_id)
            &&& only_its_game(s, left, client_id)
            &&& game_at_same(s, left, client_id)
            &&& but_for_player(g, f, k) && f.worlds == g.worlds
            &&& player_at(f.players, client_id) == k
            &&& player_of(f, client_id) == (if away { PlayerModel { world: None, ..p } } else { p })
            &&& away ==> cleared(g, f, bind_id) && lists_the_gone(g, bind_id, gone)
            &&& !away ==> f == g
            &&& told_by(
                s.clients,
                left.clients,
                |id: ClientID|
                    if away && others(g, client_id)(id) {
                        farewells(g, bind_id, gone)
                    } else {
                        Seq::empty()
                    },
            )
        }),
{
    let g = game_of(s.games, client_id);
    let p = player_of(g, client_id);
    lemma_game_of(s.games, client_id);
    lemma_player_of(g.players, client_id);
    let away = comes_from_elsewhere(p, world_id);
    if away {
        let gone = lemma_leave(s, client_id);
        lemma_game_left(g, client_id);
        let f = game_left(g, client_id);
        lemma_game_step(s.games, client_id, f);
        lemma_game_change_keeps_place(s.games, client_id, f);
        lemma_player_change_keeps_place(g, client_id, PlayerModel { world: None, ..p });
        let changed = ServerModel { games: with_game(s.games, client_id, f), ..s };
        lemma_told_each_keeps_games(
            changed,
            client_id,
            Recipients::AllBut(client_id),
            leave_packets(g, client_id),
        );
        let hears = others(g, client_id);
        let packets = farewells(g, p.bind->0.id, gone);
        let after = leave_world_effect(s, client_id).clients;
        lemma_heard_is_told(s.clients, after, hears, packets);
        gone
    } else {
        lemma_heard_nothing(s.clients, others(g, client_id));
        Seq::empty()
    }
}

/// Whether the game of `client_id` stands where it stood.
pub open spec fn game_at_same(s: ServerModel, after: ServerModel, client_id: ClientID) -> bool {
    game_at(after.games, client_id) == game_at(s.games, client_id)
}

/// A player who enters a world is in it, with the size that the payload gives,
/// plays, and is otherwise as it was. The game has the world, and all its
/// objects but those that went with the player out of another world. All
/// others in the game are told of what went and that the player is in the
/// world; all clients are told that it plays, if it did not before; the player
/// is told of the players and the objects there.
pub proof fn lemma_enter(s: ServerModel, packet: PacketModel, client_id: ClientID) -> (r: (
    Seq<i32>,
    Seq<i32>,
))
    requires
        games_wf(s.games),
        packet.action == Action::SET_WORLD,
        packet.data.len() >= 3,
        set_world_outcome(s, packet, client_id).1 is None,
    ensures
        ({
            let (gone, shown) = r;
            let world_id = packet.data[0];
            let g = game_of(s.games, client_id);
            let p = player_of(g, client_id);
            let k = player_at(g.players, client_id);
            let bind_id = p.bind->0.id;
            let after = set_world_outcome(s, packet, client_id).0;
            let h = game_of(after.games, client_id);
            let q = h.players[k];
            let away = comes_from_elsewhere(p, world_id);
            let playing = if p.status != Status::GAMING {
                seq![packet_of(Action::PLAYERS_STATUS, seq![bind_id, 1u8])]
            } else {
                Seq::empty()
            };
            &&& only_its_game(s, after, client_id)
            &&& but_for_player(g, h, k)
            &&& q.world is Some && q.world->0.id == world_id && i16_bytes(q.world->0.y_size)
                == packet.data.subrange(1, 3)
            &&& q == (PlayerModel { world: q.world, status: Status::GAMING, ..p })
            &&& h.worlds == (if knows_world(g, world_id) {
                g.worlds
            } else {
                g.worlds.push(q.world->0)
            })
            &&& away ==> cleared(g, h, bind_id) && lists_the_gone(g, bind_id, gone)
            &&& !away ==> h.vanjects == g.vanjects
            &&& lists_the_shown(h, world_id, bind_id, shown)
            &&& told_by(
                s.clients,
                after.clients,
                |id: ClientID|
                    if id == client_id {
                        playing + welcome(g, h, world_id, shown)
                    } else if plays(g, id) {
                        (if away {
                            farewells(g, bind_id, gone)
                        } else {
                            Seq::empty()
                        }) + playing + seq![
                            packet_of(Action::PLAYERS_WORLD, seq![bind_id, world_id]),
                        ]
                    } else {
                        playing
                    },
            )
        }),
{
    let data = packet.data;
    let world = world_in(data);
    let world_id = data[0];
    let g = game_of(s.games, client_id);
    let p = player_of(g, client_id);
    let k = player_at(g.players, client_id);
    lemma_who_is_meant(s, client_id);
    lemma_game_of(s.games, client_id);
    lemma_player_of(g.players, client_id);
    let bind_id = p.bind->0.id;
    let away = comes_from_elsewhere(p, world_id);
    assert(p.bind is Some);
    let gone = lemma_ready(s, client_id, world_id);
    let left = ready(s, client_id, world_id);
    let f = game_of(left.games, client_id);
    lemma_game_of(left.games, client_id);
    lemma_game_entered(f, client_id, world);
    let h = game_entered(f, client_id, world);
    lemma_game_step(left.games, client_id, h);
    lemma_game_change_keeps_place(left.games, client_id, h);
    lemma_worlds(f, world_id);
    lemma_read_is_written(data, 1);
    let entered = ServerModel { games: with_game(left.games, client_id, h), ..left };
    let status = packet_of(Action::PLAYERS_STATUS, seq![bind_id, 1u8]);
    let starts = p.status != Status::GAMING;
    let announced = if starts { told_all(entered, status) } else { entered };
    let playing = if starts { seq![status] } else { Seq::empty() };
    let here = packet_of(Action::PLAYERS_WORLD, seq![bind_id, world_id]);
    let news = told_game(announced, client_id, here);
    let entry = entry_packets(f, client_id, world, Action::SET_WORLD_RESPONSE);
    let after = told_each(news, client_id, Recipients::Only(client_id), entry);
    assert(set_world_outcome(s, packet, client_id) == (after, None::<OnUpdateError>));
    lemma_told_each_keeps_games(news, client_id, Recipients::Only(client_id), entry);
    lemma_same_connections(g, f, client_id);
    lemma_same_connections(g, h, client_id);
    // what the player is shown
    let shown = lemma_snapshot_shows(f, world_id, bind_id);
    assert(lists_the_shown(h, world_id, bind_id, shown)) by {
        assert(h.vanjects == f.vanjects);
    }
    assert(introductions(h, shown) =~= introductions(f, shown));
    assert(entry =~= welcome(g, h, world_id, shown));
    // who hears what
    let everybody = |id: ClientID| true;
    if starts {
        lemma_all_hear(entered, status);
    } else {
        lemma_heard_nothing(entered.clients, everybody);
    }
    lemma_heard_is_told(entered.clients, announced.clients, everybody, playing);
    lemma_game_hears(announced, client_id, here);
    lemma_heard_is_told(announced.clients, news.clients, others(h, client_id), seq![here]);
    lemma_each_is_heard(news, client_id, entry);
    lemma_heard_is_told(news.clients, after.clients, just(client_id), entry);
    let first = |id: ClientID|
        if away && others(g, client_id)(id) {
            farewells(g, bind_id, gone)
        } else {
            Seq::empty()
        };
    let second = |id: ClientID|
        if everybody(id) {
            playing
        } else {
            Seq::empty()
        };
    let hears = others(h, client_id);
    let third = |id: ClientID|
        if hears(id) {
            seq![here]
        } else {
            Seq::empty()
        };
    let is_it = just(client_id);
    let fourth = |id: ClientID|
        if is_it(id) {
            entry
        } else {
            Seq::empty()
        };
    lemma_news_add_up(s.clients, left.clients, announced.clients, first, second);
    let two = |id: ClientID| first(id) + second(id);
    lemma_news_add_up(s.clients, announced.clients, news.clients, two, third);
    let three = |id: ClientID| two(id) + third(id);
    lemma_news_add_up(s.clients, news.clients, after.clients, three, fourth);
    let four = |id: ClientID| three(id) + fourth(id);
    let all = |id: ClientID|
        if id == client_id {
            playing + welcome(g, h, world_id, shown)
        } else if plays(g, id) {
            (if away {
                farewells(g, bind_id, gone)
            } else {
                Seq::empty()
            }) + playing + seq![here]
        } else {
            playing
        };
    assert forall|i: int| 0 <= i < s.clients.len() implies got(
        s.clients[i],
        #[trigger] after.clients[i],
        all(s.clients[i].id),
    ) by {
        let id = s.clients[i].id;
        assert(got(s.clients[i], after.clients[i], four(id)));
        assert(four(id) =~= all(id));
    }
    (gone, shown)
}

/// Why a player cannot enter a world, and when it can. It needs a number, and a
/// world that the game already has must have the size that the game knows. A
/// player who is turned down for the size has left the world it was in; one
/// without a number leaves the world behind that is new to the game; otherwise
/// nothing has changed.
pub proof fn lemma_who_may_enter(s: ServerModel, packet: PacketModel, client_id: ClientID)
    requires
        games_wf(s.games),
        packet.data.len() >= 3,
    ensures
        ({
            let world_id = packet.data[0];
            let y_size = le_i16(packet.data, 1);
            let g = game_of(s.games, client_id);
            let p = player_of(g, client_id);
            let heeded = plays_somewhere(s, client_id);
            let away = comes_from_elsewhere(p, world_id);
            let fits = knows_world(g, world_id) ==> world_measures(g, world_id, y_size);
            let (after, failure) = set_world_outcome(s, packet, client_id);
            match failure {
                None => heeded && p.bind is Some && fits,
                Some(OnUpdateError::SetWorldError(SetWorldError::PlayerNotFound(c))) => c
                    == client_id && !heeded && after == s,
                Some(OnUpdateError::LeaveWorldError(LeaveWorldError::PlayerNotBind(c))) => c
                    == client_id && heeded && away && p.bind is None && after == s,
                Some(OnUpdateError::SetWorldError(SetWorldError::InvalidWorldSize(known, given))) =>
                heeded && !fits && given == y_size && known != given && world_measures(
                    g,
                    world_id,
                    known,
                ) && (away ==> p.bind is Some) && after == (if away {
                    leave_world_effect(s, client_id)
                } else {
                    s
                }),
                Some(OnUpdateError::SetWorldError(SetWorldError::PlayerNotBind(c))) => {
                    let h = game_of(after.games, client_id);
                    &&& c == client_id && heeded && fits && p.bind is None && !away
                    &&& only_its_game(s, after, client_id) && after.clients == s.clients
                    &&& h.players == g.players && h.vanjects == g.vanjects
                    &&& h.worlds == (if knows_world(g, world_id) {
                        g.worlds
                    } else {
                        g.worlds.push(World { id: world_id, y_size })
                    })
                },
                Some(_) => false,
            }
        }),
{
    let world = world_in(packet.data);
    let world_id = packet.data[0];
    let g = game_of(s.games, client_id);
    let p = player_of(g, client_id);
    lemma_who_is_meant(s, client_id);
    if has_game(s.games, client_id) {
        lemma_game_of(s.games, client_id);
        lemma_player_of(g.players, client_id);
        let away = comes_from_elsewhere(p, world_id);
        if !(away && p.bind is None) {
            if away {
                let _ = lemma_ready(s, client_id, world_id);
            }
            let left = ready(s, client_id, world_id);
            let f = game_of(left.games, client_id);
            lemma_game_of(left.games, client_id);
            lemma_game_entered(f, client_id, world);
            lemma_game_step(left.games, client_id, f);
            lemma_game_step(left.games, client_id, world_opened(f, world));
            lemma_game_change_keeps_place(left.games, client_id, world_opened(f, world));
            lemma_worlds(f, world_id);
            lemma_one_measure(f, world_id);
        }
    }
}

/// A world has one size.
proof fn lemma_one_measure(g: GameModel, id: u8)
    ensures
        forall|a: i16, b: i16|
            #![trigger world_measures(g, id, a), world_measures(g, id, b)]
            world_measures(g, id, a) && world_measures(g, id, b) ==> a == b,
        forall|a: i16| #[trigger] world_measures(g, id, a) ==> knows_world(g, id),
{
    assert forall|a: i16, b: i16|
        #![trigger world_measures(g, id, a), world_measures(g, id, b)]
        world_measures(g, id, a) && world_measures(g, id, b) implies a == b by {
        let i = choose|j: int|
            0 <= j < g.worlds.len() && (#[trigger] g.worlds[j]) == (World { id, y_size: a })
                && forall|i: int| 0 <= i < j ==> (#[trigger] g.worlds[i]).id != id;
        let k = choose|j: int|
            0 <= j < g.worlds.len() && (#[trigger] g.worlds[j]) == (World { id, y_size: b })
                && forall|i: int| 0 <= i < j ==> (#[trigger] g.worlds[i]).id != id;
        if i < k {
            assert(g.worlds[i].id != id);
        } else if k < i {
            assert(g.worlds[k].id != id);
        }
    }
}

} // verus!
