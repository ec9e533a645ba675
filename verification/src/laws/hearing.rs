//! Who hears of what.

use vstd::prelude::*;

use crate::callback::on_update::{
    client_at, has_client, is_first_client, lemma_first_client, replied,
};
use crate::client::{after_send, ClientID, ClientModel, Lane};
use crate::game::{
    game_wf, has_player, lemma_player_of, lemma_some_player, player_at, player_of, GameModel,
};
use crate::games::{
    game_at, game_of, games_wf, has_game, is_first_game, lemma_game_step, lemma_some_game, with_game,
};
use crate::player::PlayerModel;
use crate::protocol::{wire, Action, PacketModel};
use crate::server::{
    ids_in_world, in_world, lemma_told_each_keeps_games, lemma_who_in_world_is_told,
    lemma_who_is_told, picked, told_all, told_each, told_game, told_player, told_world, Recipients,
    ServerModel,
};

verus! {

/// Whether a player of the game plays over the connection `id`.
pub open spec fn plays(g: GameModel, id: ClientID) -> bool {
    exists|k: int| 0 <= k < g.players.len() && (#[trigger] g.players[k]).client_id == id
}

/// Whether a player of the game plays over the connection `id` in a world.
pub open spec fn plays_in(g: GameModel, id: ClientID, world_id: u8) -> bool {
    exists|k: int|
        0 <= k < g.players.len() && (#[trigger] g.players[k]).client_id == id
            && g.players[k].world is Some && g.players[k].world->0.id == world_id
}

/// The one client over the connection `client_id`.
pub open spec fn just(client_id: ClientID) -> spec_fn(ClientID) -> bool {
    |id: ClientID| id == client_id
}

/// All players of a game but those over the connection `client_id`.
pub open spec fn others(g: GameModel, client_id: ClientID) -> spec_fn(ClientID) -> bool {
    |id: ClientID| id != client_id && plays(g, id)
}

/// All players of a game in a world but those over the connection `client_id`.
pub open spec fn others_in(g: GameModel, client_id: ClientID, world_id: u8) -> spec_fn(
    ClientID,
) -> bool {
    |id: ClientID| id != client_id && plays_in(g, id, world_id)
}

/// Whether a client has been sent `packets`, in this order, and nothing else.
pub open spec fn got(before: ClientModel, after: ClientModel, packets: Seq<PacketModel>) -> bool {
    &&& after.id == before.id
    &&& after.connection == before.connection
    &&& after.protocol == before.protocol
    &&& after.queue == before.queue
    &&& after.lossy_drops == before.lossy_drops
    &&& after.base == before.base && after.drained == before.drained
    &&& after.log.len() == before.log.len() + packets.len()
    &&& forall|i: int| 0 <= i < before.log.len() ==> #[trigger] after.log[i] == before.log[i]
    &&& forall|i: int|
        0 <= i < packets.len() ==> #[trigger] after.log[before.log.len() + i].packet == packets[i]
}

/// Whether exactly the clients that `hears` picks have been sent `packets`, and
/// the others nothing.
pub open spec fn heard(
    before: Seq<ClientModel>,
    after: Seq<ClientModel>,
    hears: spec_fn(ClientID) -> bool,
    packets: Seq<PacketModel>,
) -> bool {
    &&& after.len() == before.len()
    &&& forall|i: int|
        0 <= i < before.len() ==> {
            &&& hears(before[i].id) ==> got(before[i], #[trigger] after[i], packets)
            &&& !hears(before[i].id) ==> after[i] == before[i]
        }
}

/// Whether each client has been sent exactly the `news` for its connection.
pub open spec fn told_by(
    before: Seq<ClientModel>,
    after: Seq<ClientModel>,
    news: spec_fn(ClientID) -> Seq<PacketModel>,
) -> bool {
    &&& after.len() == before.len()
    &&& forall|i: int|
        0 <= i < before.len() ==> got(before[i], #[trigger] after[i], news(before[i].id))
}

/// Whether nothing but the game of `client_id` and what clients were sent
/// differs.
pub open spec fn only_its_game(s: ServerModel, after: ServerModel, client_id: ClientID) -> bool {
    let i = game_at(s.games, client_id);
    &&& after.conf == s.conf
    &&& after.games_id_uniq == s.games_id_uniq
    &&& after.games.len() == s.games.len()
    &&& forall|j: int| 0 <= j < s.games.len() && j != i ==> #[trigger] after.games[j] == s.games[j]
    &&& after.games[i].0 == s.games[i].0
}

/// A packet that is sent to a client is the last thing sent to it. A
/// `SERVER_TIME` takes the place of an older one and stays out of the queue; an
/// update of an object may be lost there; everything else must arrive.
pub proof fn lemma_one_packet(c: ClientModel, packet: PacketModel)
    ensures
        got(c, after_send(c, packet), seq![packet]),
        after_send(c, packet).log.last().lane == (if packet.action == Action::SERVER_TIME {
            Lane::Latest
        } else if packet.action == Action::UPDATE_OBJECT {
            Lane::Lossy
        } else {
            Lane::Reliable
        }),
        after_send(c, packet).latest == (if packet.action == Action::SERVER_TIME {
            Some(wire(packet))
        } else {
            c.latest
        }),
{
}

/// What is got in two parts is got.
pub proof fn lemma_got_more(
    a: ClientModel,
    b: ClientModel,
    c: ClientModel,
    first: Seq<PacketModel>,
    later: Seq<PacketModel>,
)
    requires
        got(a, b, first),
        got(b, c, later),
    ensures
        got(a, c, first + later),
{
    let all = first + later;
    let n = a.log.len();
    assert forall|i: int| 0 <= i < n implies #[trigger] c.log[i] == a.log[i] by {
        assert(b.log[i] == a.log[i]);
    }
    assert forall|i: int| 0 <= i < all.len() implies #[trigger] c.log[n + i].packet == all[i] by {
        if i < first.len() {
            assert(b.log[n + i].packet == first[i]);
            assert(c.log[n + i] == b.log[n + i]);
        } else {
            assert(c.log[b.log.len() + (i - first.len())].packet == later[i - first.len()]);
        }
    }
}

/// What clients hear in two parts they hear.
pub proof fn lemma_heard_more(
    a: Seq<ClientModel>,
    b: Seq<ClientModel>,
    c: Seq<ClientModel>,
    hears: spec_fn(ClientID) -> bool,
    first: Seq<PacketModel>,
    later: Seq<PacketModel>,
)
    requires
        heard(a, b, hears, first),
        heard(b, c, hears, later),
    ensures
        heard(a, c, hears, first + later),
{
    assert forall|i: int| 0 <= i < a.len() implies {
        &&& hears(a[i].id) ==> got(a[i], #[trigger] c[i], first + later)
        &&& !hears(a[i].id) ==> c[i] == a[i]
    } by {
        let (x, y) = (b[i], c[i]);
        if hears(a[i].id) {
            assert(got(a[i], x, first));
            assert(got(x, y, later));
            lemma_got_more(a[i], x, y, first, later);
        }
    }
}

/// What some clients hear is their news; the others have none.
pub proof fn lemma_heard_is_told(
    a: Seq<ClientModel>,
    b: Seq<ClientModel>,
    hears: spec_fn(ClientID) -> bool,
    packets: Seq<PacketModel>,
)
    requires
        heard(a, b, hears, packets),
    ensures
        told_by(
            a,
            b,
            |id: ClientID|
                if hears(id) {
                    packets
                } else {
                    Seq::empty()
                },
        ),
{
}

/// News that come one after the other add up.
pub proof fn lemma_news_add_up(
    a: Seq<ClientModel>,
    b: Seq<ClientModel>,
    c: Seq<ClientModel>,
    first: spec_fn(ClientID) -> Seq<PacketModel>,
    later: spec_fn(ClientID) -> Seq<PacketModel>,
)
    requires
        told_by(a, b, first),
        told_by(b, c, later),
    ensures
        told_by(a, c, |id: ClientID| first(id) + later(id)),
{
    let news = |id: ClientID| first(id) + later(id);
    assert forall|i: int| 0 <= i < a.len() implies got(a[i], #[trigger] c[i], news(a[i].id)) by {
        assert(got(a[i], b[i], first(a[i].id)));
        assert(got(b[i], c[i], later(b[i].id)));
        lemma_got_more(a[i], b[i], c[i], first(a[i].id), later(b[i].id));
    }
}

/// What nobody is sent nobody hears.
pub proof fn lemma_heard_nothing(a: Seq<ClientModel>, hears: spec_fn(ClientID) -> bool)
    ensures
        heard(a, a, hears, Seq::empty()),
{
}

/// What the current client alone is told.
pub proof fn lemma_player_hears(s: ServerModel, client_id: ClientID, packet: PacketModel)
    requires
        has_game(s.games, client_id),
    ensures
        heard(
            s.clients,
            told_player(s, client_id, packet).clients,
            just(client_id),
            seq![packet],
        ),
        told_player(s, client_id, packet).games == s.games,
        only_its_game(s, told_player(s, client_id, packet), client_id),
{
    let after = told_player(s, client_id, packet).clients;
    let g = game_of(s.games, client_id);
    assert(is_first_game(s.games, client_id, game_at(s.games, client_id)));
    let hears = just(client_id);
    assert forall|i: int| 0 <= i < s.clients.len() implies {
        &&& hears(s.clients[i].id) ==> got(s.clients[i], #[trigger] after[i], seq![packet])
        &&& !hears(s.clients[i].id) ==> after[i] == s.clients[i]
    } by {
        lemma_who_is_told(s, client_id, Recipients::Only(client_id), packet, i);
        lemma_one_packet(s.clients[i], packet);
    }
}

/// What all others of a game are told.
pub proof fn lemma_game_hears(s: ServerModel, client_id: ClientID, packet: PacketModel)
    requires
        has_game(s.games, client_id),
    ensures
        ({
            let g = game_of(s.games, client_id);
            heard(
                s.clients,
                told_game(s, client_id, packet).clients,
                others(g, client_id),
                seq![packet],
            )
        }),
        told_game(s, client_id, packet).games == s.games,
        only_its_game(s, told_game(s, client_id, packet), client_id),
{
    let after = told_game(s, client_id, packet).clients;
    let g = game_of(s.games, client_id);
    let hears = others(g, client_id);
    assert forall|i: int| 0 <= i < s.clients.len() implies {
        &&& hears(s.clients[i].id) ==> got(s.clients[i], #[trigger] after[i], seq![packet])
        &&& !hears(s.clients[i].id) ==> after[i] == s.clients[i]
    } by {
        let id = s.clients[i].id;
        lemma_who_is_told(s, client_id, Recipients::AllBut(client_id), packet, i);
        lemma_one_packet(s.clients[i], packet);
        if plays(g, id) {
            let k = choose|k: int|
                0 <= k < g.players.len() && (#[trigger] g.players[k]).client_id == id;
            lemma_some_player(g.players, k);
        }
        if has_player(g.players, id) {
            lemma_player_of(g.players, id);
            assert(g.players[player_at(g.players, id)].client_id == id);
        }
    }
}

/// What is told in a world of a game: all players there hear it, the sender
/// only where it is meant.
pub proof fn lemma_world_hears(
    s: ServerModel,
    client_id: ClientID,
    world_id: u8,
    packet: PacketModel,
)
    requires
        has_game(s.games, client_id),
    ensures
        ({
            let g = game_of(s.games, client_id);
            let after = told_world(s, client_id, world_id, packet, false);
            let with_sender = told_world(s, client_id, world_id, packet, true);
            &&& heard(s.clients, after.clients, others_in(g, client_id, world_id), seq![packet])
            &&& heard(
                s.clients,
                with_sender.clients,
                |id: ClientID| plays_in(g, id, world_id),
                seq![packet],
            )
            &&& after.games == s.games && with_sender.games == s.games
            &&& only_its_game(s, after, client_id) && only_its_game(s, with_sender, client_id)
        }),
{
    let g = game_of(s.games, client_id);
    let after = told_world(s, client_id, world_id, packet, false).clients;
    let all = told_world(s, client_id, world_id, packet, true).clients;
    let hears = others_in(g, client_id, world_id);
    let hear = |id: ClientID| plays_in(g, id, world_id);
    assert forall|i: int| 0 <= i < s.clients.len() implies {
        &&& hears(s.clients[i].id) ==> got(s.clients[i], #[trigger] after[i], seq![packet])
        &&& !hears(s.clients[i].id) ==> after[i] == s.clients[i]
    } by {
        let id = s.clients[i].id;
        lemma_who_in_world_is_told(s, client_id, world_id, packet, false, i);
        lemma_one_packet(s.clients[i], packet);
        if hears(id) {
            let k = choose|k: int|
                0 <= k < g.players.len() && (#[trigger] g.players[k]).client_id == id
                    && g.players[k].world is Some && g.players[k].world->0.id == world_id;
            assert(g.players[k].client_id == id);
        }
    }
    assert forall|i: int| 0 <= i < s.clients.len() implies {
        &&& hear(s.clients[i].id) ==> got(s.clients[i], #[trigger] all[i], seq![packet])
        &&& !hear(s.clients[i].id) ==> all[i] == s.clients[i]
    } by {
        let id = s.clients[i].id;
        lemma_who_in_world_is_told(s, client_id, world_id, packet, true, i);
        lemma_one_packet(s.clients[i], packet);
        if hear(id) {
            let k = choose|k: int|
                0 <= k < g.players.len() && (#[trigger] g.players[k]).client_id == id
                    && g.players[k].world is Some && g.players[k].world->0.id == world_id;
            assert(g.players[k].client_id == id);
        }
    }
}

/// Whether players are seated alike: over the same connections, in the same
/// worlds.
pub open spec fn seated_alike(a: GameModel, b: GameModel) -> bool {
    &&& a.players.len() == b.players.len()
    &&& forall|k: int|
        0 <= k < a.players.len() ==> (#[trigger] a.players[k]).client_id == b.players[k].client_id
            && a.players[k].world == b.players[k].world
}

/// Where players are seated alike, the same connections are meant.
pub proof fn lemma_seated_alike(a: GameModel, b: GameModel, client_id: ClientID, world_id: u8)
    requires
        seated_alike(a, b),
    ensures
        others(a, client_id) == others(b, client_id),
        others_in(a, client_id, world_id) == others_in(b, client_id, world_id),
{
    assert forall|id: ClientID|
        #![trigger plays(a, id)]
        #![trigger plays_in(a, id, world_id)]
        plays(a, id) == plays(b, id) && plays_in(a, id, world_id) == plays_in(b, id, world_id) by {
        if plays(a, id) {
            let k = choose|k: int|
                0 <= k < a.players.len() && (#[trigger] a.players[k]).client_id == id;
            assert(b.players[k].client_id == id);
        }
        if plays(b, id) {
            let k = choose|k: int|
                0 <= k < b.players.len() && (#[trigger] b.players[k]).client_id == id;
            assert(a.players[k].client_id == id);
        }
        if plays_in(a, id, world_id) {
            let k = choose|k: int|
                0 <= k < a.players.len() && (#[trigger] a.players[k]).client_id == id
                    && a.players[k].world is Some && a.players[k].world->0.id == world_id;
            assert(a.players[k].client_id == b.players[k].client_id);
            assert(b.players[k].client_id == id);
        }
        if plays_in(b, id, world_id) {
            let k = choose|k: int|
                0 <= k < b.players.len() && (#[trigger] b.players[k]).client_id == id
                    && b.players[k].world is Some && b.players[k].world->0.id == world_id;
            assert(a.players[k].client_id == b.players[k].client_id);
            assert(a.players[k].client_id == id);
        }
    }
    assert(others(a, client_id) =~= others(b, client_id));
    assert(others_in(a, client_id, world_id) =~= others_in(b, client_id, world_id));
}

/// Where the connections are the same, the same others are meant.
pub proof fn lemma_same_connections(a: GameModel, b: GameModel, client_id: ClientID)
    requires
        a.players.len() == b.players.len(),
        forall|k: int|
            0 <= k < a.players.len() ==> (#[trigger] a.players[k]).client_id
                == b.players[k].client_id,
    ensures
        others(a, client_id) == others(b, client_id),
        forall|id: ClientID| #[trigger] plays(a, id) == plays(b, id),
{
    assert forall|id: ClientID| #[trigger] plays(a, id) == plays(b, id) by {
        if plays(a, id) {
            let k = choose|k: int|
                0 <= k < a.players.len() && (#[trigger] a.players[k]).client_id == id;
            assert(b.players[k].client_id == id);
        }
        if plays(b, id) {
            let k = choose|k: int|
                0 <= k < b.players.len() && (#[trigger] b.players[k]).client_id == id;
            assert(a.players[k].client_id == id);
        }
    }
    assert(others(a, client_id) =~= others(b, client_id));
}

/// A game that changes, and what is told of it: the change touches no other
/// game, and the news reach those who were there, by the world or in the whole
/// game.
pub proof fn lemma_change_is_heard(
    s: ServerModel,
    client_id: ClientID,
    h: GameModel,
    world_id: u8,
    packet: PacketModel,
)
    requires
        games_wf(s.games),
        has_game(s.games, client_id),
        game_wf(h),
        has_player(h.players, client_id),
        seated_alike(game_of(s.games, client_id), h),
    ensures
        ({
            let g = game_of(s.games, client_id);
            let changed = ServerModel { games: with_game(s.games, client_id, h), ..s };
            let here = told_world(changed, client_id, world_id, packet, false);
            let all = told_game(changed, client_id, packet);
            &&& has_game(changed.games, client_id) && game_of(changed.games, client_id) == h
            &&& only_its_game(s, changed, client_id) && changed.clients == s.clients
            &&& here.games == changed.games && all.games == changed.games
            &&& only_its_game(s, here, client_id) && only_its_game(s, all, client_id)
            &&& heard(s.clients, here.clients, others_in(g, client_id, world_id), seq![packet])
            &&& heard(s.clients, all.clients, others(g, client_id), seq![packet])
        }),
{
    let g = game_of(s.games, client_id);
    let changed = ServerModel { games: with_game(s.games, client_id, h), ..s };
    assert(is_first_game(s.games, client_id, game_at(s.games, client_id)));
    lemma_game_step(s.games, client_id, h);
    lemma_world_hears(changed, client_id, world_id, packet);
    lemma_game_hears(changed, client_id, packet);
    lemma_seated_alike(g, h, client_id, world_id);
}

/// What all clients are told, whoever asked for it.
pub proof fn lemma_all_hear(s: ServerModel, packet: PacketModel)
    ensures
        heard(s.clients, told_all(s, packet).clients, |id: ClientID| true, seq![packet]),
        told_all(s, packet).games == s.games,
        told_all(s, packet).conf == s.conf,
        told_all(s, packet).games_id_uniq == s.games_id_uniq,
{
    let after = told_all(s, packet).clients;
    assert forall|i: int| 0 <= i < s.clients.len() implies got(
        s.clients[i],
        #[trigger] after[i],
        seq![packet],
    ) by {
        lemma_one_packet(s.clients[i], packet);
    }
}

/// Packets that are sent one after the other arrive in that order, at the
/// client alone or at all others of its game.
pub proof fn lemma_each_is_heard(
    s: ServerModel,
    client_id: ClientID,
    packets: Seq<PacketModel>,
)
    requires
        has_game(s.games, client_id),
    ensures
        heard(
            s.clients,
            told_each(s, client_id, Recipients::Only(client_id), packets).clients,
            just(client_id),
            packets,
        ),
        ({
            let g = game_of(s.games, client_id);
            heard(
                s.clients,
                told_each(s, client_id, Recipients::AllBut(client_id), packets).clients,
                others(g, client_id),
                packets,
            )
        }),
        only_its_game(
            s,
            told_each(s, client_id, Recipients::Only(client_id), packets),
            client_id,
        ),
        only_its_game(
            s,
            told_each(s, client_id, Recipients::AllBut(client_id), packets),
            client_id,
        ),
    decreases packets.len(),
{
    let g = game_of(s.games, client_id);
    let (only, rest_of_them) = (Recipients::Only(client_id), Recipients::AllBut(client_id));
    let is_it = just(client_id);
    let is_other = others(g, client_id);
    lemma_told_each_keeps_games(s, client_id, only, packets);
    lemma_told_each_keeps_games(s, client_id, rest_of_them, packets);
    if packets.len() == 0 {
        assert(packets =~= Seq::empty());
        lemma_heard_nothing(s.clients, is_it);
        lemma_heard_nothing(s.clients, is_other);
    } else {
        let (rest, last) = (packets.drop_last(), packets.last());
        lemma_each_is_heard(s, client_id, rest);
        lemma_told_each_keeps_games(s, client_id, only, rest);
        lemma_told_each_keeps_games(s, client_id, rest_of_them, rest);
        let a = told_each(s, client_id, only, rest);
        let b = told_each(s, client_id, rest_of_them, rest);
        lemma_player_hears(a, client_id, last);
        lemma_game_hears(b, client_id, last);
        lemma_heard_more(
            s.clients,
            a.clients,
            told_player(a, client_id, last).clients,
            is_it,
            rest,
            seq![last],
        );
        lemma_heard_more(
            s.clients,
            b.clients,
            told_game(b, client_id, last).clients,
            is_other,
            rest,
            seq![last],
        );
        assert(rest + seq![last] =~= packets);
    }
}

/// An answer goes to one client, the first over its connection, and to nobody
/// where there is none.
pub proof fn lemma_answer_goes_to_one(s: ServerModel, client_id: ClientID, packet: PacketModel)
    ensures
        ({
            let after = replied(s, client_id, packet);
            &&& after.games == s.games && after.conf == s.conf && after.games_id_uniq
                == s.games_id_uniq
            &&& after.clients.len() == s.clients.len()
            &&& forall|i: int|
                0 <= i < s.clients.len() ==> {
                    let first = s.clients[i].id == client_id && forall|j: int|
                        0 <= j < i ==> (#[trigger] s.clients[j]).id != client_id;
                    &&& first ==> got(s.clients[i], #[trigger] after.clients[i], seq![packet])
                    &&& !first ==> after.clients[i] == s.clients[i]
                }
        }),
{
    let after = replied(s, client_id, packet);
    if has_client(s.clients, client_id) {
        let k = client_at(s.clients, client_id);
        assert(is_first_client(s.clients, client_id, k));
        lemma_one_packet(s.clients[k], packet);
    }
    assert forall|i: int| 0 <= i < s.clients.len() implies {
        let first = s.clients[i].id == client_id && forall|j: int|
            0 <= j < i ==> (#[trigger] s.clients[j]).id != client_id;
        &&& first ==> got(s.clients[i], #[trigger] after.clients[i], seq![packet])
        &&& !first ==> after.clients[i] == s.clients[i]
    } by {
        let first = s.clients[i].id == client_id && forall|j: int|
            0 <= j < i ==> (#[trigger] s.clients[j]).id != client_id;
        if first {
            assert(is_first_client(s.clients, client_id, i));
            lemma_first_client(s.clients, client_id, i);
        }
    }
}

/// Who asks is the first player over its connection, in the first game that
/// such a player plays in; where there is none, it plays in no game at all.
pub proof fn lemma_who_is_meant(s: ServerModel, client_id: ClientID)
    ensures
        has_game(s.games, client_id) <==> exists|j: int|
            0 <= j < s.games.len() && plays((#[trigger] s.games[j]).1, client_id),
        has_game(s.games, client_id) ==> {
            let i = game_at(s.games, client_id);
            let g = game_of(s.games, client_id);
            let k = player_at(g.players, client_id);
            &&& 0 <= i < s.games.len() && s.games[i].1 == g
            &&& forall|j: int| 0 <= j < i ==> !plays((#[trigger] s.games[j]).1, client_id)
            &&& 0 <= k < g.players.len() && g.players[k] == player_of(g, client_id)
            &&& g.players[k].client_id == client_id
            &&& forall|j: int| 0 <= j < k ==> (#[trigger] g.players[j]).client_id != client_id
        },
{
    if has_game(s.games, client_id) {
        let i = game_at(s.games, client_id);
        assert(is_first_game(s.games, client_id, i));
        let g = game_of(s.games, client_id);
        lemma_player_of(g.players, client_id);
        assert(plays(s.games[i].1, client_id)) by {
            assert(g.players[player_at(g.players, client_id)].client_id == client_id);
        }
        assert forall|j: int| 0 <= j < i implies !plays((#[trigger] s.games[j]).1, client_id) by {
            let other = s.games[j].1;
            if plays(other, client_id) {
                let k = choose|k: int|
                    0 <= k < other.players.len() && (#[trigger] other.players[k]).client_id
                        == client_id;
                lemma_some_player(other.players, k);
            }
        }
    }
    if exists|j: int| 0 <= j < s.games.len() && plays((#[trigger] s.games[j]).1, client_id) {
        let j = choose|j: int| 0 <= j < s.games.len() && plays((#[trigger] s.games[j]).1, client_id);
        let other = s.games[j].1;
        let k = choose|k: int|
            0 <= k < other.players.len() && (#[trigger] other.players[k]).client_id == client_id;
        lemma_some_player(other.players, k);
        lemma_some_game(s.games, j, client_id);
    }
}

/// The connections found in a world are those of the players there, of a
/// sender only where it is meant.
pub proof fn lemma_found_in_a_world(
    g: GameModel,
    world_id: u8,
    sender: Option<ClientID>,
    include_sender: bool,
    id: ClientID,
)
    ensures
        ids_in_world(g, world_id, sender, include_sender).contains(id) <==> plays_in(
            g,
            id,
            world_id,
        ) && (include_sender || sender != Some(id)),
{
    let pred = |p: PlayerModel| in_world(p, world_id, sender, include_sender);
    let key = |p: PlayerModel| p.client_id;
    let here = g.players.filter(pred);
    let ids = here.map_values(key);
    if plays_in(g, id, world_id) && (include_sender || sender != Some(id)) {
        let k = choose|k: int|
            0 <= k < g.players.len() && (#[trigger] g.players[k]).client_id == id
                && g.players[k].world is Some && g.players[k].world->0.id == world_id;
        g.players.lemma_filter_contains(pred, k);
        let l = choose|l: int| 0 <= l < here.len() && here[l] == g.players[k];
        assert(ids[l] == id);
    }
    if ids.contains(id) {
        let l = choose|l: int| 0 <= l < ids.len() && ids[l] == id;
        g.players.lemma_filter_pred(pred, l);
        assert(here.contains(here[l]));
        g.players.lemma_filter_contains_rev(pred, here[l]);
        let k = choose|k: int| 0 <= k < g.players.len() && g.players[k] == here[l];
        assert(g.players[k].client_id == id);
    }
}

/// Picked are those of whom the filter said so, and nobody else.
pub proof fn lemma_picked_as_said(ids: Seq<ClientID>, picks: Seq<bool>, id: ClientID)
    requires
        picks.len() == ids.len(),
    ensures
        picked(ids, picks).contains(id) <==> exists|i: int|
            0 <= i < ids.len() && ids[i] == id && #[trigger] picks[i],
    decreases ids.len(),
{
    let all = picked(ids, picks);
    if ids.len() > 0 {
        let n = ids.len() - 1;
        let before = picked(ids.drop_last(), picks.drop_last());
        lemma_picked_as_said(ids.drop_last(), picks.drop_last(), id);
        if all.contains(id) {
            let k = choose|k: int| 0 <= k < all.len() && all[k] == id;
            if k < before.len() {
                assert(before[k] == id);
                assert(before.contains(id));
                let i = choose|i: int|
                    0 <= i < n && ids.drop_last()[i] == id && #[trigger] picks.drop_last()[i];
                assert(ids[i] == id && picks[i]);
            } else {
                assert(ids[n] == id && picks[n]);
            }
        }
        if exists|i: int| 0 <= i < ids.len() && ids[i] == id && #[trigger] picks[i] {
            let i = choose|i: int| 0 <= i < ids.len() && ids[i] == id && #[trigger] picks[i];
            if i < n {
                assert(ids.drop_last()[i] == id && picks.drop_last()[i]);
                let k = choose|k: int| 0 <= k < before.len() && before[k] == id;
                assert(all[k] == id);
            } else {
                assert(all[all.len() - 1] == id);
            }
        }
    }
}

/// Of what is sent on behalf of a client that is in no game nobody hears.
pub proof fn lemma_nobody_hears(
    s: ServerModel,
    client_id: ClientID,
    world_id: u8,
    packet: PacketModel,
    include_sender: bool,
)
    requires
        !has_game(s.games, client_id),
    ensures
        told_player(s, client_id, packet) == s,
        told_game(s, client_id, packet) == s,
        told_world(s, client_id, world_id, packet, include_sender) == s,
{
}

} // verus!
