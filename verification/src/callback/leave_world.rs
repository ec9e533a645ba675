//! `LEAVE_WORLD`: a player goes out of its world.

use vstd::prelude::*;
use vstd::set_lib::lemma_len_subset;

use crate::bytes::{i32_bytes, push_i32};
use crate::client::ClientID;
use crate::frames::packet_models;
use crate::game::{
    game_wf, has_player, lemma_player_change_keeps_place, lemma_player_change_keeps_wf,
    lemma_player_of, lemma_vanjects_remove, player_of, with_player, Game,
    GameModel,
};
use crate::games::{game_of, has_game, lemma_game_of, lemma_game_step, with_game};
use crate::listing::{
    ascending, filed_ids, insert_in_order, lemma_listed_once, lemma_listing, lemma_one_more, listing,
    lists, Order,
};
use crate::player::PlayerModel;
use crate::protocol::{packet_of, Action, Packet, PacketModel};
use crate::server::{lemma_sender_hears_nothing, told_each, Recipients, Server, ServerModel};
use crate::vanject::{
    lemma_flags_follow_type, lemma_named_types, non_global_id, players_id, private_id, station_of,
    type_of, Vanject, VanjectModel, NID,
};

use super::{OnUpdateError, OnUpdateOk};

verus! {

broadcast use vstd::std_specs::hash::group_hash_axioms;

/// Why a player could not leave.
#[derive(Clone, Copy, Debug, PartialEq, Eq, Structural)]
pub enum LeaveWorldError {
    /// The client is in no game.
    PlayerNotFound(ClientID),
    /// The player has no number in its game.
    PlayerNotBind(ClientID),
    /// The player is out of all worlds already.
    WorldEmpty(ClientID),
}

/// Whether an object goes when the player with the number `bind_id` leaves:
/// what the player carries, and what is private to its station. An object
/// that the station made and that another player carries now stays.
pub open spec fn leaves_with(v: VanjectModel, bind_id: u8) -> bool {
    ||| non_global_id(v.id) && players_id(v.id) && v.player_bind_id == bind_id
    ||| station_of(v.id) == bind_id && private_id(v.id)
}

/// Whether an object goes when the player with the number `player_bind_id`
/// leaves.
pub fn should_delete_on_leave_world(v: &Vanject, player_bind_id: u8) -> (r: bool)
    ensures
        r == leaves_with(v@, player_bind_id),
{
    let is_players_inventory_object: bool = v.is_non_global() && v.is_players() && v.player_bind_id
        == player_bind_id;
    let is_private_station_object: bool = v.get_station() == player_bind_id as i32
        && v.is_private();
    is_players_inventory_object || is_private_station_object
}

/// The ids of the objects that go when the player with the number `bind_id`
/// leaves.
pub open spec fn leaving_ids(g: GameModel, bind_id: u8) -> Set<i32> {
    Set::new(|id: i32| g.vanjects.contains_key(id) && leaves_with(g.vanjects[id], bind_id))
}

/// What the others are told of an object that goes.
pub open spec fn gone_packet(v: VanjectModel, bind_id: u8) -> PacketModel {
    packet_of(Action::DELETE_OBJECT, i32_bytes(v.id) + seq![bind_id] + i32_bytes(v.time))
}

/// What the others are told of a player who has left its world.
pub open spec fn out_packet(bind_id: u8) -> PacketModel {
    packet_of(Action::PLAYERS_WORLD, seq![bind_id, 0u8])
}

/// What the others are told when a player leaves: of each object that goes,
/// by id, then of the player.
pub open spec fn leave_packets(g: GameModel, client_id: ClientID) -> Seq<PacketModel> {
    let bind_id = player_of(g, client_id).bind->0.id;
    listing(leaving_ids(g, bind_id), Order::ById).map_values(
        |id: i32| gone_packet(g.vanjects[id], bind_id),
    ).push(out_packet(bind_id))
}

/// The game after a player left its world.
pub open spec fn game_left(g: GameModel, client_id: ClientID) -> GameModel {
    let p = player_of(g, client_id);
    GameModel {
        vanjects: g.vanjects.remove_keys(leaving_ids(g, p.bind->0.id)),
        ..with_player(g, client_id, PlayerModel { world: None, ..p })
    }
}

/// Why a game does not let a player leave.
pub open spec fn leave_refusal(g: GameModel, client_id: ClientID) -> Option<LeaveWorldError> {
    let p = player_of(g, client_id);
    if p.bind is None {
        Some(LeaveWorldError::PlayerNotBind(client_id))
    } else if p.world is None {
        Some(LeaveWorldError::WorldEmpty(client_id))
    } else {
        None
    }
}

/// A game that a player has left is well-formed and still has the player.
pub proof fn lemma_game_left(g: GameModel, client_id: ClientID)
    requires
        game_wf(g),
        has_player(g.players, client_id),
    ensures
        game_wf(game_left(g, client_id)),
        has_player(game_left(g, client_id).players, client_id),
        player_of(game_left(g, client_id), client_id) == (PlayerModel {
            world: None,
            ..player_of(g, client_id)
        }),
{
    let p = PlayerModel { world: None, ..player_of(g, client_id) };
    lemma_len_subset(game_left(g, client_id).vanjects.dom(), g.vanjects.dom());
    lemma_player_of(g.players, client_id);
    lemma_player_change_keeps_wf(g, client_id, p);
    lemma_player_change_keeps_place(g, client_id, p);
}

impl Game {
    /// The objects that go when the player with the number `bind_id` leaves,
    /// by id.
    fn leaving(&self, bind_id: u8) -> (gone: Vec<i32>)
        ensures
            lists(gone@, leaving_ids(self@, bind_id), Order::ById),
    {
        let ids = filed_ids(&self.vanjects);
        let mut gone: Vec<i32> = Vec::new();
        let mut i: usize = 0;
        while i < ids.len()
            invariant
                0 <= i <= ids@.len(),
                ids@.no_duplicates(),
                forall|id: i32| #[trigger] ids@.contains(id) <==> self.vanjects@.contains_key(id),
                ascending(gone@, Order::ById),
                forall|id: i32| #[trigger]
                    gone@.contains(id) <==> ids@.take(i as int).contains(id) && leaves_with(
                        self@.vanjects[id],
                        bind_id,
                    ),
            decreases ids@.len() - i,
        {
            let id: i32 = ids[i];
            proof {
                lemma_one_more(ids@, i as int);
            }
            match self.vanjects.get(&id) {
                Some(vanject) => {
                    assert(self@.vanjects[id] == vanject@);
                    if should_delete_on_leave_world(vanject, bind_id) {
                        insert_in_order(&mut gone, id, Order::ById);
                    }
                },
                None => {},
            }
            i = i + 1;
        }
        assert(ids@.take(i as int) =~= ids@);
        assert forall|id: i32| #[trigger] gone@.contains(id) <==> leaving_ids(
            self@,
            bind_id,
        ).contains(id) by {
            assert(ids@.contains(id) <==> self@.vanjects.contains_key(id));
        }
        gone
    }

    /// Lets the player over the connection `client_id` out of its world, and
    /// takes away what goes with it; the result is what the others are told.
    pub fn leave_world(&mut self, client_id: ClientID) -> (r: Result<
        Vec<Packet>,
        LeaveWorldError,
    >)
        requires
            game_wf(old(self)@),
            has_player(old(self)@.players, client_id),
        ensures
            game_wf(final(self)@),
            match leave_refusal(old(self)@, client_id) {
                Some(e) => {
                    &&& r == Err::<Vec<Packet>, LeaveWorldError>(e)
                    &&& final(self)@ == old(self)@
                },
                None => {
                    &&& final(self)@ == game_left(old(self)@, client_id)
                    &&& r is Ok
                    &&& packet_models(r->Ok_0@) == leave_packets(old(self)@, client_id)
                },
            },
    {
        let ghost g = self@;
        let ghost p = player_of(g, client_id);
        proof {
            lemma_player_of(g.players, client_id);
            lemma_game_left(g, client_id);
        }
        let (bind, world) = match self.get_player(client_id) {
            Some(player) => (player.bind, player.world),
            None => (None, None),
        };
        let bind_id: u8 = match bind {
            Some(bind) => bind.id(),
            None => {
                return Err(LeaveWorldError::PlayerNotBind(client_id));
            },
        };
        if world.is_none() {
            return Err(LeaveWorldError::WorldEmpty(client_id));
        }
        let gone = self.leaving(bind_id);
        let ghost set = leaving_ids(g, bind_id);
        let ghost notice = |id: i32| gone_packet(g.vanjects[id], bind_id);
        proof {
            lemma_listing(gone@, set, Order::ById);
        }
        if let Some(player) = self.get_mut_player(client_id) {
            player.world = None;
        }
        let ghost start = self@;
        let mut packets: Vec<Packet> = Vec::new();
        let mut i: usize = 0;
        proof {
            assert(packet_models(packets@) =~= gone@.take(0).map_values(notice));
            assert(g.vanjects.remove_keys(gone@.take(0).to_set()) =~= g.vanjects);
        }
        while i < gone.len()
            invariant
                0 <= i <= gone@.len(),
                start.vanjects == g.vanjects,
                self@ == (GameModel {
                    vanjects: g.vanjects.remove_keys(gone@.take(i as int).to_set()),
                    ..start
                }),
                set == leaving_ids(g, bind_id),
                game_wf(g),
                lists(gone@, set, Order::ById),
                notice == (|id: i32| gone_packet(g.vanjects[id], bind_id)),
                packet_models(packets@) == gone@.take(i as int).map_values(notice),
            decreases gone@.len() - i,
        {
            let id: i32 = gone[i];
            let ghost head = gone@.take(i as int);
            let ghost next = gone@.take(i + 1);
            let ghost objects = self.vanjects@;
            proof {
                assert(gone@.contains(id));
                assert(set.contains(id));
                lemma_listed_once(gone@, Order::ById);
                lemma_one_more(gone@, i as int);
                assert(!head.to_set().contains(id));
                assert(self@.vanjects.contains_key(id));
                assert(self@.vanjects[id] == g.vanjects[id]);
            }
            match self.vanjects.remove(&id) {
                Some(vanject) => {
                    let mut data: Vec<u8> = Vec::new();
                    push_i32(&mut data, id);
                    data.push(bind_id);
                    push_i32(&mut data, vanject.time);
                    let ghost before = packets@;
                    let packet = Packet::new(Action::DELETE_OBJECT, &data);
                    proof {
                        assert(vanject@ == g.vanjects[id]);
                        assert(g.vanjects[id].id == id);
                        assert(data@ =~= i32_bytes(id) + seq![bind_id] + i32_bytes(vanject.time));
                    }
                    packets.push(packet);
                    proof {
                        assert(packet@ == notice(id));
                        assert(packet_models(packets@) =~= packet_models(before).push(packet@));
                        assert(next.map_values(notice) =~= head.map_values(notice).push(
                            notice(id),
                        ));
                    }
                },
                None => {},
            }
            i = i + 1;
            proof {
                lemma_vanjects_remove(objects, id);
                assert forall|x: i32| #[trigger] next.to_set().contains(x) <==> head.to_set().contains(
                    x,
                ) || x == id by {
                    assert(next.contains(x) <==> head.contains(x) || x == id);
                }
                assert(self@.vanjects =~= g.vanjects.remove_keys(next.to_set()));
                assert(self@ =~= (GameModel {
                    vanjects: g.vanjects.remove_keys(next.to_set()),
                    ..start
                }));
            }
        }
        let world_data: Vec<u8> = vec![bind_id, 0u8];
        assert(world_data@ =~= seq![bind_id, 0u8]);
        let out = Packet::new(Action::PLAYERS_WORLD, &world_data);
        let ghost before = packets@;
        packets.push(out);
        proof {
            assert(gone@.take(i as int) =~= gone@);
            assert forall|x: i32| gone@.to_set().contains(x) <==> set.contains(x) by {
                assert(gone@.contains(x) <==> set.contains(x));
            }
            assert(gone@.to_set() =~= set);
            assert(packet_models(packets@) =~= leave_packets(g, client_id));
            assert(self@ =~= game_left(g, client_id));
        }
        Ok(packets)
    }
}

/// Why the server does not let a player leave its world.
pub open spec fn leave_world_refusal(s: ServerModel, client_id: ClientID) -> Option<
    LeaveWorldError,
> {
    if !has_game(s.games, client_id) {
        Some(LeaveWorldError::PlayerNotFound(client_id))
    } else {
        leave_refusal(game_of(s.games, client_id), client_id)
    }
}

/// The server after a player left its world: what goes with it is gone, and
/// the others in the game are told.
pub open spec fn leave_world_effect(s: ServerModel, client_id: ClientID) -> ServerModel {
    let g = game_of(s.games, client_id);
    told_each(
        ServerModel { games: with_game(s.games, client_id, game_left(g, client_id)), ..s },
        client_id,
        Recipients::AllBut(client_id),
        leave_packets(g, client_id),
    )
}

impl Server {
    /// Answers `LEAVE_WORLD`, whose payload says nothing.
    pub fn leave_world(&mut self, _packet: &Packet, client_id: ClientID) -> (r: Result<
        OnUpdateOk,
        OnUpdateError,
    >)
        requires
            old(self).wf(),
        ensures
            final(self).wf(),
            match leave_world_refusal(old(self)@, client_id) {
                Some(e) => {
                    &&& r == Err::<OnUpdateOk, OnUpdateError>(OnUpdateError::LeaveWorldError(e))
                    &&& final(self)@ == old(self)@
                },
                None => {
                    &&& r == Ok::<OnUpdateOk, OnUpdateError>(OnUpdateOk::Complete)
                    &&& final(self)@ == leave_world_effect(old(self)@, client_id)
                },
            },
    {
        let ghost s = self@;
        proof {
            if has_game(s.games, client_id) {
                lemma_game_of(s.games, client_id);
                lemma_game_left(game_of(s.games, client_id), client_id);
            }
        }
        let outcome = match self.get_mut_game_by_clientid(client_id) {
            Some(game) => game.leave_world(client_id),
            None => Err(LeaveWorldError::PlayerNotFound(client_id)),
        };
        proof {
            if has_game(s.games, client_id) {
                let g = game_of(s.games, client_id);
                if leave_refusal(g, client_id) is None {
                    lemma_game_step(s.games, client_id, game_left(g, client_id));
                } else {
                    lemma_game_step(s.games, client_id, g);
                }
            }
        }
        match outcome {
            Ok(packets) => {
                self.notify_each(client_id, &packets, Recipients::AllBut(client_id));
                Ok(OnUpdateOk::Complete)
            },
            Err(err) => Err(OnUpdateError::LeaveWorldError(err)),
        }
    }
}

/// What lies about or is fixed in a world stays when a player leaves, and so
/// does what another player carries, even if the leaving player made it.
pub proof fn lemma_what_stays(g: GameModel, client_id: ClientID, id: i32)
    requires
        game_wf(g),
        g.vanjects.contains_key(id),
        ({
            let t = type_of(id);
            ||| t == NID::STUFF || t == NID::SENSOR || t == NID::TNT
            ||| !private_id(id) && g.vanjects[id].player_bind_id != player_of(
                g,
                client_id,
            ).bind->0.id
            ||| !private_id(id) && !non_global_id(id)
        }),
    ensures
        game_left(g, client_id).vanjects.contains_key(id),
        game_left(g, client_id).vanjects[id] == g.vanjects[id],
{
    lemma_flags_follow_type(id);
    lemma_named_types();
    assert(g.vanjects[id].id == id);
}

/// What a leaving player carries goes, and so does what is private to its
/// station.
pub proof fn lemma_what_goes(g: GameModel, client_id: ClientID, id: i32)
    requires
        game_wf(g),
        g.vanjects.contains_key(id),
        ({
            let bind_id = player_of(g, client_id).bind->0.id;
            ||| non_global_id(id) && players_id(id) && g.vanjects[id].player_bind_id == bind_id
            ||| private_id(id) && station_of(id) == bind_id
        }),
    ensures
        !game_left(g, client_id).vanjects.contains_key(id),
{
    assert(g.vanjects[id].id == id);
}

/// The leaving player itself is told nothing.
pub proof fn lemma_leaving_player_hears_nothing(s: ServerModel, client_id: ClientID, i: int)
    requires
        0 <= i < s.clients.len(),
        s.clients[i].id == client_id,
    ensures
        leave_world_effect(s, client_id).clients[i] == s.clients[i],
{
    let g = game_of(s.games, client_id);
    let after = ServerModel {
        games: with_game(s.games, client_id, game_left(g, client_id)),
        ..s
    };
    lemma_sender_hears_nothing(after, client_id, 0, leave_packets(g, client_id), i);
}

} // verus!
