//! The server: its games, its clients, and who hears of what.

use vstd::prelude::*;

use crate::client::{after_send, Client, ClientID, ClientModel};
use crate::frames::packet_models;
use crate::game::{
    has_player, lemma_player_of, lemma_some_player, player_at, Game, GameModel,
};
use crate::games::{game_of, games_wf, has_game, with_game, Games};
use crate::player::PlayerModel;
use crate::protocol::{Packet, PacketModel};

verus! {

/// How the server is set up.
#[derive(Clone, Copy, Debug, PartialEq, Eq, Structural)]
pub struct ServerConfig {
    pub port: u16,
    /// Whether packets that ask for the time stay out of the log.
    pub supress_log_server_time: bool,
    /// Whether packets that ask for the list of games stay out of the log.
    pub supress_log_games_list_query: bool,
}

impl Default for ServerConfig {
    fn default() -> (c: ServerConfig)
        ensures
            c == (ServerConfig {
                port: 2197,
                supress_log_server_time: false,
                supress_log_games_list_query: false,
            }),
    {
        ServerConfig {
            port: 2197,
            supress_log_server_time: false,
            supress_log_games_list_query: false,
        }
    }
}

/// The server.
///
/// All times are in milliseconds since it was started.
pub struct Server {
    pub conf: ServerConfig,
    /// List of all games on the server.
    pub games: Games,
    /// Counter that storages an uniq game_id for next new game.
    pub games_id_uniq: u32,
    /// List of all connected TCP clients.
    pub clients: Vec<Client>,
}

/// The value of a [`Server`].
#[verifier::ext_equal]
pub struct ServerModel {
    pub conf: ServerConfig,
    pub games: Seq<(u32, GameModel)>,
    pub games_id_uniq: u32,
    pub clients: Seq<ClientModel>,
}

/// Clients, as values.
pub open spec fn client_models(clients: Seq<Client>) -> Seq<ClientModel> {
    clients.map_values(|c: Client| c@)
}

impl View for Server {
    type V = ServerModel;

    open spec fn view(&self) -> ServerModel {
        ServerModel {
            conf: self.conf,
            games: self.games@,
            games_id_uniq: self.games_id_uniq,
            clients: client_models(self.clients@),
        }
    }
}

/// The players of a game that a packet is for.
#[derive(Clone, Copy, Debug, PartialEq, Eq, Structural)]
pub enum Recipients {
    /// The one over this connection.
    Only(ClientID),
    /// All but the one over this connection.
    AllBut(ClientID),
}

/// Whether a packet is for the player over the connection `id`.
pub open spec fn selects(to: Recipients, id: ClientID) -> bool {
    match to {
        Recipients::Only(only) => id == only,
        Recipients::AllBut(but) => id != but,
    }
}

impl Recipients {
    /// Whether a packet is for the player over the connection `id`.
    pub fn selects(&self, id: ClientID) -> (r: bool)
        ensures
            r == selects(*self, id),
    {
        match *self {
            Recipients::Only(only) => id == only,
            Recipients::AllBut(but) => id != but,
        }
    }
}

/// The time since the server was started, as clients are told it.
pub open spec fn uptime_at(now_ms: u64) -> u32 {
    (now_ms % 0x1_0000_0000) as u32
}

/// The id for the next game.
pub open spec fn next_game_id(s: ServerModel) -> u32 {
    (s.games_id_uniq + 1) as u32
}

/// The connections of the players of a game.
pub open spec fn player_ids(g: GameModel) -> Seq<ClientID> {
    g.players.map_values(|p: PlayerModel| p.client_id)
}

/// The connections of the players of a game that a packet is for.
pub open spec fn ids_for(g: GameModel, to: Recipients) -> Seq<ClientID> {
    player_ids(g).filter(|id: ClientID| selects(to, id))
}

/// Whether `picks` is what a filter may have said of each of `ids`.
pub open spec fn filter_says<F: Fn(&ClientID) -> bool>(
    filter: F,
    ids: Seq<ClientID>,
    picks: Seq<bool>,
) -> bool {
    &&& picks.len() == ids.len()
    &&& forall|i: int|
        0 <= i < ids.len() ==> call_ensures(filter, (&ids[i],), #[trigger] picks[i])
}

/// Those of `ids` that were picked.
pub open spec fn picked(ids: Seq<ClientID>, picks: Seq<bool>) -> Seq<ClientID>
    decreases ids.len(),
{
    if ids.len() == 0 {
        Seq::empty()
    } else {
        let before = picked(ids.drop_last(), picks.drop_last());
        if picks.last() {
            before.push(ids.last())
        } else {
            before
        }
    }
}

/// Whether a player is in the world `world_id` and, unless senders count too,
/// is not the sender.
pub open spec fn in_world(
    p: PlayerModel,
    world_id: u8,
    sender_id: Option<ClientID>,
    include_sender: bool,
) -> bool {
    &&& p.world matches Some(w)
    &&& w.id == world_id
    &&& include_sender || Some(p.client_id) != sender_id
}

/// The connections of the players of a game who are in a world.
pub open spec fn ids_in_world(
    g: GameModel,
    world_id: u8,
    sender_id: Option<ClientID>,
    include_sender: bool,
) -> Seq<ClientID> {
    g.players.filter(
        |p: PlayerModel| in_world(p, world_id, sender_id, include_sender),
    ).map_values(|p: PlayerModel| p.client_id)
}

/// The clients after a packet was sent to those among `ids`.
pub open spec fn send_to(
    clients: Seq<ClientModel>,
    ids: Seq<ClientID>,
    packet: PacketModel,
) -> Seq<ClientModel> {
    clients.map_values(
        |c: ClientModel|
            if ids.contains(c.id) {
                after_send(c, packet)
            } else {
                c
            },
    )
}

/// The server after a packet was sent to players of the game of `client_id`;
/// where it is in no game, nobody hears of it.
pub open spec fn told(
    s: ServerModel,
    client_id: ClientID,
    to: Recipients,
    packet: PacketModel,
) -> ServerModel {
    if has_game(s.games, client_id) {
        ServerModel {
            clients: send_to(s.clients, ids_for(game_of(s.games, client_id), to), packet),
            ..s
        }
    } else {
        s
    }
}

/// The server after a packet was sent to `client_id`, if it is in a game.
pub open spec fn told_player(s: ServerModel, client_id: ClientID, p: PacketModel) -> ServerModel {
    told(s, client_id, Recipients::Only(client_id), p)
}

/// The server after a packet was sent to all in the game of `client_id` but
/// to itself.
pub open spec fn told_game(s: ServerModel, client_id: ClientID, p: PacketModel) -> ServerModel {
    told(s, client_id, Recipients::AllBut(client_id), p)
}

/// The server after a packet was sent to all clients.
pub open spec fn told_all(s: ServerModel, p: PacketModel) -> ServerModel {
    ServerModel { clients: s.clients.map_values(|c: ClientModel| after_send(c, p)), ..s }
}

/// The server after a packet was sent to all in a world of the game of
/// `client_id`.
pub open spec fn told_world(
    s: ServerModel,
    client_id: ClientID,
    world_id: u8,
    packet: PacketModel,
    include_sender: bool,
) -> ServerModel {
    if has_game(s.games, client_id) {
        let ids = ids_in_world(
            game_of(s.games, client_id),
            world_id,
            Some(client_id),
            include_sender,
        );
        ServerModel { clients: send_to(s.clients, ids, packet), ..s }
    } else {
        s
    }
}

/// The server after packets were sent, one after the other, to players of the
/// game of `client_id`.
pub open spec fn told_each(
    s: ServerModel,
    client_id: ClientID,
    to: Recipients,
    packets: Seq<PacketModel>,
) -> ServerModel
    decreases packets.len(),
{
    if packets.len() == 0 {
        s
    } else {
        told(told_each(s, client_id, to, packets.drop_last()), client_id, to, packets.last())
    }
}

/// Sending packets leaves the games alone.
pub proof fn lemma_told_each_keeps_games(
    s: ServerModel,
    client_id: ClientID,
    to: Recipients,
    packets: Seq<PacketModel>,
)
    ensures
        told_each(s, client_id, to, packets).games == s.games,
    decreases packets.len(),
{
    if packets.len() > 0 {
        lemma_told_each_keeps_games(s, client_id, to, packets.drop_last());
    }
}

/// Of what is sent to players of a game hear exactly the clients over whose
/// connections the selected players of that game play.
pub proof fn lemma_who_is_told(
    s: ServerModel,
    client_id: ClientID,
    to: Recipients,
    packet: PacketModel,
    i: int,
)
    requires
        has_game(s.games, client_id),
        0 <= i < s.clients.len(),
    ensures
        told(s, client_id, to, packet).clients.len() == s.clients.len(),
        told(s, client_id, to, packet).clients[i] == if selects(to, s.clients[i].id) && has_player(
            game_of(s.games, client_id).players,
            s.clients[i].id,
        ) {
            after_send(s.clients[i], packet)
        } else {
            s.clients[i]
        },
{
    let g = game_of(s.games, client_id);
    let id = s.clients[i].id;
    let all = player_ids(g);
    let pred = |id: ClientID| selects(to, id);
    if has_player(g.players, id) && selects(to, id) {
        lemma_player_of(g.players, id);
        all.lemma_filter_contains(pred, player_at(g.players, id));
    }
    if ids_for(g, to).contains(id) {
        let k = choose|k: int| 0 <= k < all.filter(pred).len() && all.filter(pred)[k] == id;
        all.lemma_filter_pred(pred, k);
        all.lemma_filter_contains_rev(pred, id);
        let l = choose|l: int| 0 <= l < all.len() && all[l] == id;
        lemma_some_player(g.players, l);
    }
}

/// Of what is sent to a world hear exactly the clients over whose connections
/// players of the game are in that world, the sender only where it is meant.
pub proof fn lemma_who_in_world_is_told(
    s: ServerModel,
    client_id: ClientID,
    world_id: u8,
    packet: PacketModel,
    include_sender: bool,
    i: int,
)
    requires
        has_game(s.games, client_id),
        0 <= i < s.clients.len(),
    ensures
        ({
            let after = told_world(s, client_id, world_id, packet, include_sender);
            let players = game_of(s.games, client_id).players;
            let hears = exists|k: int|
                0 <= k < players.len() && (#[trigger] players[k]).client_id == s.clients[i].id
                    && in_world(players[k], world_id, Some(client_id), include_sender);
            &&& after.clients.len() == s.clients.len()
            &&& after.clients[i] == if hears {
                after_send(s.clients[i], packet)
            } else {
                s.clients[i]
            }
        }),
{
    let players = game_of(s.games, client_id).players;
    let id = s.clients[i].id;
    let pred = |p: PlayerModel| in_world(p, world_id, Some(client_id), include_sender);
    let key = |p: PlayerModel| p.client_id;
    let here = players.filter(pred);
    let ids = here.map_values(key);
    if exists|k: int|
        0 <= k < players.len() && (#[trigger] players[k]).client_id == id && pred(players[k]) {
        let k = choose|k: int|
            0 <= k < players.len() && (#[trigger] players[k]).client_id == id && pred(players[k]);
        players.lemma_filter_contains(pred, k);
        let l = choose|l: int| 0 <= l < here.len() && here[l] == players[k];
        assert(ids[l] == id);
    }
    if ids.contains(id) {
        let l = choose|l: int| 0 <= l < ids.len() && ids[l] == id;
        players.lemma_filter_pred(pred, l);
        assert(here.contains(here[l]));
        players.lemma_filter_contains_rev(pred, here[l]);
        let k = choose|k: int| 0 <= k < players.len() && players[k] == here[l];
        assert(players[k].client_id == id && pred(players[k]));
    }
}

/// Who sends something to the others of its game or world hears nothing of it.
pub proof fn lemma_sender_hears_nothing(
    s: ServerModel,
    client_id: ClientID,
    world_id: u8,
    packets: Seq<PacketModel>,
    i: int,
)
    requires
        0 <= i < s.clients.len(),
        s.clients[i].id == client_id,
    ensures
        ({
            let after = told_each(s, client_id, Recipients::AllBut(client_id), packets);
            after.clients.len() == s.clients.len() && after.clients[i] == s.clients[i]
        }),
        forall|packet: PacketModel|
            (#[trigger] told_world(s, client_id, world_id, packet, false)).clients[i]
                == s.clients[i],
    decreases packets.len(),
{
    let to = Recipients::AllBut(client_id);
    if packets.len() > 0 {
        let rest = packets.drop_last();
        lemma_sender_hears_nothing(s, client_id, world_id, rest, i);
        let before = told_each(s, client_id, to, rest);
        if has_game(before.games, client_id) {
            lemma_who_is_told(before, client_id, to, packets.last(), i);
        }
    }
    assert forall|packet: PacketModel|
        (#[trigger] told_world(s, client_id, world_id, packet, false)).clients[i]
            == s.clients[i] by {
        if has_game(s.games, client_id) {
            lemma_who_in_world_is_told(s, client_id, world_id, packet, false, i);
        }
    }
}

/// The connections of the players of `game` who are in the world `world_id`,
/// the sender only where `include_sender` says so.
pub fn client_ids_in_world(
    game: &Game,
    world_id: u8,
    sender_id: Option<ClientID>,
    include_sender: bool,
) -> (ids: Vec<ClientID>)
    ensures
        ids@ == ids_in_world(game@, world_id, sender_id, include_sender),
{
    let ghost pred = |p: PlayerModel| in_world(p, world_id, sender_id, include_sender);
    let ghost key = |p: PlayerModel| p.client_id;
    let ghost players = game@.players;
    let mut ids: Vec<ClientID> = Vec::new();
    let mut i: usize = 0;
    proof {
        reveal(Seq::filter);
        assert(ids@ =~= players.take(0).filter(pred).map_values(key));
    }
    while i < game.players.len()
        invariant
            0 <= i <= game.players@.len(),
            players == game@.players,
            pred == (|p: PlayerModel| in_world(p, world_id, sender_id, include_sender)),
            key == (|p: PlayerModel| p.client_id),
            ids@ == players.take(i as int).filter(pred).map_values(key),
        decreases game.players@.len() - i,
    {
        let player = &game.players[i];
        let ghost head = players.take(i as int);
        let ghost next = players.take(i + 1);
        proof {
            reveal(Seq::filter);
            assert(players[i as int] == player@);
            assert(next.drop_last() =~= head);
            assert(next.last() == player@);
        }
        let here: bool = match player.world {
            Some(world) => world.id == world_id,
            None => false,
        };
        let is_sender: bool = match sender_id {
            Some(id) => player.client_id == id,
            None => false,
        };
        if here && (include_sender || !is_sender) {
            ids.push(player.client_id);
            assert(ids@ =~= next.filter(pred).map_values(key));
        }
        i = i + 1;
    }
    assert(players.take(i as int) =~= players);
    ids
}

/// Picking what a predicate holds of is filtering by it.
proof fn lemma_picked(ids: Seq<ClientID>, picks: Seq<bool>, pred: spec_fn(ClientID) -> bool)
    requires
        picks.len() == ids.len(),
        forall|i: int| 0 <= i < ids.len() ==> #[trigger] picks[i] == pred(ids[i]),
    ensures
        picked(ids, picks) == ids.filter(pred),
    decreases ids.len(),
{
    reveal(Seq::filter);
    if ids.len() > 0 {
        assert forall|i: int| 0 <= i < ids.len() - 1 implies #[trigger] picks.drop_last()[i]
            == pred(ids.drop_last()[i]) by {
            assert(picks[i] == pred(ids[i]));
        }
        lemma_picked(ids.drop_last(), picks.drop_last(), pred);
        assert(picks[ids.len() - 1] == pred(ids[ids.len() - 1]));
    }
}

/// The connections of the players of `game` that `filter` lets through.
fn client_ids_where<F: Fn(&ClientID) -> bool>(game: &Game, filter: F) -> (ids: Vec<ClientID>)
    requires
        forall|id: ClientID| #[trigger] call_requires(filter, (&id,)),
    ensures
        exists|picks: Seq<bool>| #[trigger]
            filter_says(filter, player_ids(game@), picks) && ids@ == picked(
                player_ids(game@),
                picks,
            ),
{
    let ghost all = player_ids(game@);
    let ghost mut picks: Seq<bool> = Seq::empty();
    let mut ids: Vec<ClientID> = Vec::new();
    let mut i: usize = 0;
    assert(ids@ =~= picked(all.take(0), picks));
    while i < game.players.len()
        invariant
            0 <= i <= game.players@.len(),
            all == player_ids(game@),
            forall|id: ClientID| #[trigger] call_requires(filter, (&id,)),
            filter_says(filter, all.take(i as int), picks),
            ids@ == picked(all.take(i as int), picks),
        decreases game.players@.len() - i,
    {
        let id: ClientID = game.players[i].client_id;
        assert(game@.players[i as int] == game.players@[i as int]@);
        assert(call_requires(filter, (&id,)));
        let pick: bool = filter(&id);
        proof {
            let before = picks;
            picks = picks.push(pick);
            assert(all.take(i + 1).drop_last() =~= all.take(i as int));
            assert(all.take(i + 1).last() == id);
            assert(picks.drop_last() =~= before);
            assert forall|j: int| 0 <= j < i + 1 implies call_ensures(
                filter,
                (&all.take(i + 1)[j],),
                #[trigger] picks[j],
            ) by {
                if j < i {
                    assert(picks[j] == before[j]);
                    assert(all.take(i + 1)[j] == all.take(i as int)[j]);
                }
            }
        }
        if pick {
            ids.push(id);
        }
        i = i + 1;
    }
    assert(all.take(i as int) =~= all);
    ids
}

fn contains_id(ids: &Vec<ClientID>, id: ClientID) -> (r: bool)
    ensures
        r == ids@.contains(id),
{
    let mut i: usize = 0;
    while i < ids.len()
        invariant
            0 <= i <= ids@.len(),
            forall|j: int| 0 <= j < i ==> ids@[j] != id,
        decreases ids@.len() - i,
    {
        if ids[i] == id {
            return true;
        }
        i = i + 1;
    }
    false
}

impl Server {
    /// What holds of every server: its games are well-formed and each client
    /// has been offered what was sent to it.
    pub open spec fn wf(&self) -> bool {
        &&& games_wf(self.games@)
        &&& forall|i: int| 0 <= i < self.clients@.len() ==> (#[trigger] self.clients@[i]).wf()
    }

    /// A server without games and clients.
    pub fn new(conf: ServerConfig) -> (s: Server)
        ensures
            s.wf(),
            s@ == (ServerModel {
                conf,
                games: Seq::empty(),
                games_id_uniq: 0,
                clients: Seq::empty(),
            }),
    {
        let s = Server { conf, games: Games::new(), games_id_uniq: 0, clients: Vec::new() };
        assert(s@.clients =~= Seq::empty());
        s
    }

    /// The time since the server was started, in milliseconds; it starts
    /// again at zero when 32 bits no longer hold it.
    pub fn uptime(&self, now_ms: u64) -> (r: u32)
        ensures
            r == now_ms % 0x1_0000_0000,
            r == uptime_at(now_ms),
    {
        (now_ms % 0x1_0000_0000) as u32
    }

    /// The game with a player over the connection `client_id`.
    pub fn get_game_by_clientid(&self, client_id: ClientID) -> (r: Option<&Game>)
        ensures
            match r {
                Some(g) => has_game(self@.games, client_id) && g@ == game_of(
                    self@.games,
                    client_id,
                ),
                None => !has_game(self@.games, client_id),
            },
    {
        self.games.get_game_by_client_id(client_id)
    }

    /// The game with a player over the connection `client_id`, to be changed.
    pub fn get_mut_game_by_clientid(&mut self, client_id: ClientID) -> (r: Option<&mut Game>)
        ensures
            match r {
                Some(g) => {
                    &&& has_game(old(self)@.games, client_id)
                    &&& g@ == game_of(old(self)@.games, client_id)
                    &&& final(self).games@ == with_game(old(self)@.games, client_id, final(g)@)
                    &&& final(self).clients == old(self).clients
                    &&& final(self).conf == old(self).conf
                    &&& final(self).games_id_uniq == old(self).games_id_uniq
                },
                None => !has_game(old(self)@.games, client_id) && *final(self) == *old(self),
            },
    {
        self.games.get_mut_game_by_client_id(client_id)
    }

    /// A number that no game has had yet.
    pub fn get_game_uniq_id(&mut self) -> (r: u32)
        requires
            old(self).wf(),
            old(self).games_id_uniq < u32::MAX,
        ensures
            final(self).wf(),
            r == old(self).games_id_uniq + 1,
            r == next_game_id(old(self)@),
            final(self)@ == (ServerModel { games_id_uniq: r, ..old(self)@ }),
    {
        self.games_id_uniq = self.games_id_uniq + 1;
        self.games_id_uniq
    }

    /// Sends `packet` to the clients among `ids`.
    pub fn send_to(&mut self, ids: &Vec<ClientID>, packet: &Packet)
        requires
            old(self).wf(),
        ensures
            final(self).wf(),
            final(self)@ == (ServerModel {
                clients: send_to(old(self)@.clients, ids@, packet@),
                ..old(self)@
            }),
            final(self).games == old(self).games,
    {
        let ghost before = self@.clients;
        let ghost goal = send_to(before, ids@, packet@);
        let mut i: usize = 0;
        while i < self.clients.len()
            invariant
                0 <= i <= self.clients@.len(),
                self.wf(),
                self.games == old(self).games,
                self.conf == old(self).conf,
                self.games_id_uniq == old(self).games_id_uniq,
                before == old(self)@.clients,
                self.clients@.len() == before.len(),
                goal == send_to(before, ids@, packet@),
                forall|j: int| 0 <= j < i ==> (#[trigger] self.clients@[j])@ == goal[j],
                forall|j: int|
                    i <= j < self.clients@.len() ==> (#[trigger] self.clients@[j])@ == before[j],
            decreases self.clients@.len() - i,
        {
            assert(self.clients@[i as int]@ == before[i as int]);
            assert(self.clients@[i as int].wf());
            if contains_id(ids, self.clients[i].id) {
                let c = &mut self.clients[i];
                c.send(packet);
            }
            i = i + 1;
        }
        assert(self@.clients =~= goal);
    }

    /// Sends `packet` to the players of the game of `client_id` that `filter`
    /// lets through.
    pub fn notify<F: Fn(&ClientID) -> bool>(
        &mut self,
        client_id: ClientID,
        packet: &Packet,
        filter: F,
    )
        requires
            old(self).wf(),
            forall|id: ClientID| #[trigger] call_requires(filter, (&id,)),
        ensures
            final(self).wf(),
            final(self).games == old(self).games,
            !has_game(old(self)@.games, client_id) ==> final(self)@ == old(self)@,
            has_game(old(self)@.games, client_id) ==> {
                let ids = player_ids(game_of(old(self)@.games, client_id));
                exists|picks: Seq<bool>| #[trigger]
                    filter_says(filter, ids, picks) && final(self)@ == (ServerModel {
                        clients: send_to(old(self)@.clients, picked(ids, picks), packet@),
                        ..old(self)@
                    })
            },
    {
        let ids = match self.get_game_by_clientid(client_id) {
            Some(game) => client_ids_where(game, filter),
            None => {
                return ;
            },
        };
        self.send_to(&ids, packet);
    }

    /// Sends `packet` to the players of the game of `client_id` that `to`
    /// selects.
    pub fn notify_those(&mut self, client_id: ClientID, packet: &Packet, to: Recipients)
        requires
            old(self).wf(),
        ensures
            final(self).wf(),
            final(self)@ == told(old(self)@, client_id, to, packet@),
            final(self).games == old(self).games,
    {
        let filter = |id: &ClientID| -> (r: bool)
            ensures
                r == selects(to, *id),
            { to.selects(*id) };
        self.notify(client_id, packet, filter);
        proof {
            if has_game(old(self)@.games, client_id) {
                let ids = player_ids(game_of(old(self)@.games, client_id));
                let picks = choose|picks: Seq<bool>| #[trigger]
                    filter_says(filter, ids, picks) && self@ == (ServerModel {
                        clients: send_to(old(self)@.clients, picked(ids, picks), packet@),
                        ..old(self)@
                    });
                assert forall|i: int| 0 <= i < ids.len() implies #[trigger] picks[i] == selects(
                    to,
                    ids[i],
                ) by {
                    assert(call_ensures(filter, (&ids[i],), picks[i]));
                }
                lemma_picked(ids, picks, |id: ClientID| selects(to, id));
            }
        }
    }

    /// Sends `packets`, one after the other, to the players of the game of
    /// `client_id` that `to` selects.
    pub fn notify_each(&mut self, client_id: ClientID, packets: &Vec<Packet>, to: Recipients)
        requires
            old(self).wf(),
        ensures
            final(self).wf(),
            final(self)@ == told_each(old(self)@, client_id, to, packet_models(packets@)),
            final(self).games == old(self).games,
    {
        let ghost all = packet_models(packets@);
        let mut i: usize = 0;
        while i < packets.len()
            invariant
                0 <= i <= packets@.len(),
                all == packet_models(packets@),
                self.wf(),
                self.games == old(self).games,
                self@ == told_each(old(self)@, client_id, to, all.take(i as int)),
            decreases packets@.len() - i,
        {
            self.notify_those(client_id, &packets[i], to);
            i = i + 1;
            proof {
                assert(all.take(i as int).drop_last() =~= all.take(i - 1));
                assert(all.take(i as int).last() == packets@[i - 1]@);
            }
        }
        assert(all.take(i as int) =~= all);
    }

    /// Sends `packet` to the current client only.
    pub fn notify_player(&mut self, client_id: ClientID, packet: &Packet)
        requires
            old(self).wf(),
        ensures
            final(self).wf(),
            final(self)@ == told_player(old(self)@, client_id, packet@),
            final(self).games == old(self).games,
    {
        self.notify_those(client_id, packet, Recipients::Only(client_id));
    }

    /// Sends `packet` to all clients in the game exclude a caller client
    /// `client_id`.
    pub fn notify_game(&mut self, client_id: ClientID, packet: &Packet)
        requires
            old(self).wf(),
        ensures
            final(self).wf(),
            final(self)@ == told_game(old(self)@, client_id, packet@),
            final(self).games == old(self).games,
    {
        self.notify_those(client_id, packet, Recipients::AllBut(client_id));
    }

    /// Sends `packet` to all clients.
    pub fn notify_all(&mut self, _client_id: ClientID, packet: &Packet)
        requires
            old(self).wf(),
        ensures
            final(self).wf(),
            final(self)@ == told_all(old(self)@, packet@),
            final(self).games == old(self).games,
    {
        let ghost before = self@.clients;
        let ghost goal = told_all(self@, packet@).clients;
        let mut i: usize = 0;
        while i < self.clients.len()
            invariant
                0 <= i <= self.clients@.len(),
                self.wf(),
                self.games == old(self).games,
                self.conf == old(self).conf,
                self.games_id_uniq == old(self).games_id_uniq,
                before == old(self)@.clients,
                self.clients@.len() == before.len(),
                goal == told_all(old(self)@, packet@).clients,
                forall|j: int| 0 <= j < i ==> (#[trigger] self.clients@[j])@ == goal[j],
                forall|j: int|
                    i <= j < self.clients@.len() ==> (#[trigger] self.clients@[j])@ == before[j],
            decreases self.clients@.len() - i,
        {
            assert(self.clients@[i as int]@ == before[i as int]);
            assert(self.clients@[i as int].wf());
            let c = &mut self.clients[i];
            c.send(packet);
            i = i + 1;
        }
        assert(self@.clients =~= goal);
    }

    /// Sends `packet` to players that are currently attached to the same
    /// world.
    pub fn notify_world(
        &mut self,
        client_id: ClientID,
        world_id: u8,
        packet: &Packet,
        include_sender: bool,
    )
        requires
            old(self).wf(),
        ensures
            final(self).wf(),
            final(self)@ == told_world(old(self)@, client_id, world_id, packet@, include_sender),
            final(self).games == old(self).games,
    {
        let ids = match self.get_game_by_clientid(client_id) {
            Some(game) => client_ids_in_world(game, world_id, Some(client_id), include_sender),
            None => {
                return ;
            },
        };
        self.send_to(&ids, packet);
    }
}

} // verus!
