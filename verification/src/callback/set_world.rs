//! `SET_WORLD`: a player enters a world.

use vstd::prelude::*;
use vstd::set_lib::lemma_len_subset;

use crate::bytes::{le_i16, read_i16};
use crate::client::ClientID;
use crate::frames::packet_models;
use crate::game::{
    game_wf, has_player, lemma_player_change_keeps_place, lemma_player_change_keeps_wf,
    lemma_player_of, player_of, with_player, Game, GameModel, World,
};
use crate::games::{game_of, games_wf, has_game, lemma_game_of, lemma_game_step, with_game};
use crate::listing::{
    ascending, filed_ids, insert_in_order, lemma_listing, lemma_listing_exists, lemma_one_more,
    listing, lists, place, Order,
};
use crate::player::{status_code, PlayerModel, Status};
use crate::protocol::{answer_of, packet_of, Action, Packet, PacketModel};
use crate::server::{
    lemma_told_each_keeps_games, told_all, told_each, told_game, Recipients, Server, ServerModel,
};
use crate::vanject::{
    get_vanject_type, type_of, world_of, Vanject, VanjectModel, NID,
};

use super::item_transfer::{object_packet, shown_packet};
use super::leave_world::{
    game_left, leave_packets, leave_refusal, leave_world_effect, lemma_game_left,
};
use super::total_players_data_query::{roster_packet, total_players_data_packet};
use super::{OnUpdateError, OnUpdateOk};

verus! {

broadcast use vstd::std_specs::hash::group_hash_axioms;

/// Why a player could not enter.
#[derive(Clone, Copy, Debug, PartialEq, Eq, Structural)]
pub enum SetWorldError {
    /// The client is in no game.
    PlayerNotFound(ClientID),
    /// The player has no number in its game.
    PlayerNotBind(ClientID),
    /// The world has another size: the expected one, the given one.
    InvalidWorldSize(i16, i16),
}

/// The rank of an object among those that a player who enters a world is told
/// of: vangers first, then what they carry, then what lies about.
pub open spec fn snapshot_rank(id: i32) -> u8 {
    let t = type_of(id);
    if t == NID::VANGER {
        0
    } else if t == NID::SLOT {
        1
    } else if t == NID::DEVICE {
        2
    } else if t == NID::SHELL {
        3
    } else if t == NID::STUFF {
        4
    } else {
        255
    }
}

/// The rank of an object among those that a player who enters a world is told
/// of, by its id.
pub fn snapshot_rank_of(id: i32) -> (r: u8)
    ensures
        r == snapshot_rank(id),
{
    let t = get_vanject_type(id);
    if t == NID::VANGER {
        0
    } else if t == NID::SLOT {
        1
    } else if t == NID::DEVICE {
        2
    } else if t == NID::SHELL {
        3
    } else if t == NID::STUFF {
        4
    } else {
        255
    }
}

/// The rank of an object among those that a player who enters a world is told
/// of.
pub fn world_snapshot_order(vanject: &Vanject) -> (r: u8)
    ensures
        r == snapshot_rank(vanject.id),
{
    snapshot_rank_of(vanject.id)
}

/// Whether the player with the number `joining` is told of an object when it
/// enters a world: what lies about there, and what others have there.
pub open spec fn in_snapshot(v: VanjectModel, world_id: u8, joining: u8) -> bool {
    let t = type_of(v.id);
    &&& world_of(v.id) == world_id
    &&& t == NID::STUFF || ((t == NID::VANGER || t == NID::SLOT || t == NID::DEVICE || t
        == NID::SHELL) && v.player_bind_id != joining)
}

/// Whether the player with the number `joining_player_bind_id` is told of an
/// object when it enters the world `world_id`.
pub fn should_include_in_world_snapshot(
    vanject: &Vanject,
    world_id: u8,
    joining_player_bind_id: u8,
) -> (r: bool)
    ensures
        r == in_snapshot(vanject@, world_id, joining_player_bind_id),
{
    if vanject.get_world() != world_id as i32 {
        return false;
    }
    let t = vanject.get_type();
    if t == NID::STUFF {
        true
    } else if t == NID::VANGER || t == NID::SLOT || t == NID::DEVICE || t == NID::SHELL {
        vanject.player_bind_id != joining_player_bind_id
    } else {
        false
    }
}

/// The ids of the objects that a player is told of when it enters a world.
pub open spec fn snapshot_ids(g: GameModel, world_id: u8, joining: u8) -> Set<i32> {
    Set::new(
        |id: i32| g.vanjects.contains_key(id) && in_snapshot(g.vanjects[id], world_id, joining),
    )
}

/// What a player is told of the objects of a world when it enters it.
pub open spec fn snapshot_packets(g: GameModel, world_id: u8, joining: u8) -> Seq<PacketModel> {
    listing(snapshot_ids(g, world_id, joining), Order::Snapshot).map_values(
        |id: i32| shown_packet(g.vanjects[id]),
    )
}

/// Whether the first world with the number `id` stands at `i`.
pub open spec fn is_world_at(worlds: Seq<World>, id: u8, i: int) -> bool {
    &&& 0 <= i < worlds.len()
    &&& worlds[i].id == id
    &&& forall|j: int| 0 <= j < i ==> (#[trigger] worlds[j]).id != id
}

/// Whether a game has the world with the number `id`.
pub open spec fn has_world(worlds: Seq<World>, id: u8) -> bool {
    exists|i: int| is_world_at(worlds, id, i)
}

/// The first world with the number `id`.
pub open spec fn world_with(worlds: Seq<World>, id: u8) -> World {
    worlds[choose|i: int| is_world_at(worlds, id, i)]
}

/// The game with the world in it.
pub open spec fn world_opened(g: GameModel, world: World) -> GameModel {
    if has_world(g.worlds, world.id) {
        g
    } else {
        GameModel { worlds: g.worlds.push(world), ..g }
    }
}

/// The game after a player entered a world.
pub open spec fn game_entered(g: GameModel, client_id: ClientID, world: World) -> GameModel {
    let opened = world_opened(g, world);
    with_player(
        opened,
        client_id,
        PlayerModel {
            world: Some(world),
            status: Status::GAMING,
            ..player_of(opened, client_id)
        },
    )
}

/// Why a game does not let a player enter a world, and how it is then: a world
/// that is new to the game stays even if the player has no number.
pub open spec fn enter_refusal(g: GameModel, client_id: ClientID, world: World) -> Option<
    (SetWorldError, GameModel),
> {
    if has_world(g.worlds, world.id) && world_with(g.worlds, world.id).y_size != world.y_size {
        Some(
            (
                SetWorldError::InvalidWorldSize(
                    world_with(g.worlds, world.id).y_size,
                    world.y_size,
                ),
                g,
            ),
        )
    } else if player_of(g, client_id).bind is None {
        Some((SetWorldError::PlayerNotBind(client_id), world_opened(g, world)))
    } else {
        None
    }
}

/// What a player who enters a world is told: that it has entered and whether
/// the world is new, then, between two marks, of the players and the objects.
pub open spec fn entry_packets(
    g: GameModel,
    client_id: ClientID,
    world: World,
    answer: Action,
) -> Seq<PacketModel> {
    let bind_id = player_of(g, client_id).bind->0.id;
    let status = if has_world(g.worlds, world.id) { 0u8 } else { 1u8 };
    seq![
        packet_of(answer, seq![world.id, status]),
        packet_of(Action::WORLD_SNAPSHOT_BEGIN, seq![world.id]),
        roster_packet(game_entered(g, client_id, world)),
    ] + snapshot_packets(g, world.id, bind_id) + seq![
        packet_of(Action::WORLD_SNAPSHOT_END, seq![world.id]),
    ]
}

/// What a game says of a player who has entered a world.
pub struct Entry {
    pub bind_id: u8,
    /// Whether the player did not play before.
    pub starts: bool,
    /// What the player is told.
    pub packets: Vec<Packet>,
}

/// A game that a player has entered is well-formed and still has the player.
pub proof fn lemma_game_entered(g: GameModel, client_id: ClientID, world: World)
    requires
        game_wf(g),
        has_player(g.players, client_id),
    ensures
        game_wf(world_opened(g, world)),
        has_player(world_opened(g, world).players, client_id),
        game_wf(game_entered(g, client_id, world)),
        has_player(game_entered(g, client_id, world).players, client_id),
        player_of(game_entered(g, client_id, world), client_id).bind == player_of(
            g,
            client_id,
        ).bind,
{
    let opened = world_opened(g, world);
    let p = PlayerModel {
        world: Some(world),
        status: Status::GAMING,
        ..player_of(opened, client_id)
    };
    lemma_player_of(opened.players, client_id);
    lemma_player_change_keeps_wf(opened, client_id, p);
    lemma_player_change_keeps_place(opened, client_id, p);
}

impl Game {
    fn find_world(&self, id: u8) -> (r: Option<World>)
        ensures
            match r {
                Some(w) => has_world(self@.worlds, id) && w == world_with(self@.worlds, id) && w.id
                    == id,
                None => !has_world(self@.worlds, id),
            },
    {
        let mut i: usize = 0;
        while i < self.worlds.len()
            invariant
                0 <= i <= self.worlds@.len(),
                forall|j: int| 0 <= j < i ==> (#[trigger] self.worlds@[j]).id != id,
            decreases self.worlds@.len() - i,
        {
            if self.worlds[i].id == id {
                proof {
                    let worlds = self.worlds@;
                    assert(is_world_at(worlds, id, i as int));
                    let k = choose|k: int| is_world_at(worlds, id, k);
                    assert(is_world_at(worlds, id, k));
                    if k < i {
                        assert(worlds[k].id == id);
                    } else if i < k {
                        assert(worlds[i as int].id == id);
                    }
                }
                return Some(self.worlds[i]);
            }
            i = i + 1;
        }
        None
    }

    /// The objects that the player with the number `joining` is told of when
    /// it enters the world `world_id`, in their order.
    fn snapshot(&self, world_id: u8, joining: u8) -> (told: Vec<i32>)
        ensures
            lists(told@, snapshot_ids(self@, world_id, joining), Order::Snapshot),
    {
        let ids = filed_ids(&self.vanjects);
        let mut told: Vec<i32> = Vec::new();
        let mut i: usize = 0;
        while i < ids.len()
            invariant
                0 <= i <= ids@.len(),
                ids@.no_duplicates(),
                forall|id: i32| #[trigger] ids@.contains(id) <==> self.vanjects@.contains_key(id),
                ascending(told@, Order::Snapshot),
                forall|id: i32| #[trigger]
                    told@.contains(id) <==> ids@.take(i as int).contains(id) && in_snapshot(
                        self@.vanjects[id],
                        world_id,
                        joining,
                    ),
            decreases ids@.len() - i,
        {
            let id: i32 = ids[i];
            proof {
                lemma_one_more(ids@, i as int);
            }
            match self.vanjects.get(&id) {
                Some(vanject) => {
                    assert(self@.vanjects[id] == vanject@);
                    if should_include_in_world_snapshot(vanject, world_id, joining) {
                        insert_in_order(&mut told, id, Order::Snapshot);
                    }
                },
                None => {},
            }
            i = i + 1;
        }
        assert(ids@.take(i as int) =~= ids@);
        assert forall|id: i32| #[trigger] told@.contains(id) <==> snapshot_ids(
            self@,
            world_id,
            joining,
        ).contains(id) by {
            assert(ids@.contains(id) <==> self@.vanjects.contains_key(id));
        }
        told
    }

    /// Appends what a player is told of the objects of a world when it enters
    /// it.
    fn push_snapshot(&self, packets: &mut Vec<Packet>, world_id: u8, joining: u8)
        ensures
            packet_models(final(packets)@) == packet_models(old(packets)@) + snapshot_packets(
                self@,
                world_id,
                joining,
            ),
    {
        let told = self.snapshot(world_id, joining);
        let ghost set = snapshot_ids(self@, world_id, joining);
        let ghost notice = |id: i32| shown_packet(self@.vanjects[id]);
        let ghost first = packet_models(packets@);
        proof {
            lemma_listing(told@, set, Order::Snapshot);
            assert(packet_models(packets@) =~= first + told@.take(0).map_values(notice));
        }
        let mut i: usize = 0;
        while i < told.len()
            invariant
                0 <= i <= told@.len(),
                lists(told@, set, Order::Snapshot),
                set == snapshot_ids(self@, world_id, joining),
                notice == (|id: i32| shown_packet(self@.vanjects[id])),
                packet_models(packets@) == first + told@.take(i as int).map_values(notice),
            decreases told@.len() - i,
        {
            let id: i32 = told[i];
            let ghost before = packets@;
            proof {
                assert(told@.contains(id));
                assert(set.contains(id));
            }
            match self.vanjects.get(&id) {
                Some(vanject) => {
                    let packet = object_packet(vanject);
                    packets.push(packet);
                    proof {
                        assert(packet@ == notice(id));
                        let head = told@.take(i as int);
                        let next = told@.take(i + 1);
                        assert(next =~= head.push(id));
                        assert(next.map_values(notice) =~= head.map_values(notice).push(
                            notice(id),
                        ));
                        assert(packet_models(packets@) =~= packet_models(before).push(packet@));
                        assert(packet_models(packets@) =~= first + next.map_values(notice));
                    }
                },
                None => {},
            }
            i = i + 1;
        }
        assert(told@.take(i as int) =~= told@);
    }

    /// Lets the player over the connection `client_id` into a world.
    pub fn enter_world(
        &mut self,
        client_id: ClientID,
        world: World,
        answer: Option<Action>,
    ) -> (r: Result<Entry, SetWorldError>)
        requires
            game_wf(old(self)@),
            has_player(old(self)@.players, client_id),
            enter_refusal(old(self)@, client_id, world) is None ==> answer is Some,
        ensures
            game_wf(final(self)@),
            has_player(final(self)@.players, client_id),
            match enter_refusal(old(self)@, client_id, world) {
                Some((e, g)) => r == Err::<Entry, SetWorldError>(e) && final(self)@ == g,
                None => {
                    let p = player_of(old(self)@, client_id);
                    &&& final(self)@ == game_entered(old(self)@, client_id, world)
                    &&& r is Ok
                    &&& r->Ok_0.bind_id == p.bind->0.id
                    &&& r->Ok_0.starts == (p.status != Status::GAMING)
                    &&& packet_models(r->Ok_0.packets@) == entry_packets(
                        old(self)@,
                        client_id,
                        world,
                        answer->0,
                    )
                },
            },
    {
        let ghost g = self@;
        proof {
            lemma_player_of(g.players, client_id);
            lemma_game_entered(g, client_id, world);
        }
        let world_status: u8 = match self.find_world(world.id) {
            Some(found) => {
                if found.y_size != world.y_size {
                    return Err(SetWorldError::InvalidWorldSize(found.y_size, world.y_size));
                }
                0
            },
            None => {
                self.worlds.push(world);
                1
            },
        };
        assert(self@ =~= world_opened(g, world));
        let bind = match self.get_player(client_id) {
            Some(player) => player.bind,
            None => None,
        };
        let bind_id: u8 = match bind {
            Some(bind) => bind.id(),
            None => {
                return Err(SetWorldError::PlayerNotBind(client_id));
            },
        };
        let starts: bool = self.place_player(client_id, &world);
        assert(self@ =~= game_entered(g, client_id, world));
        let mut packets: Vec<Packet> = Vec::new();
        let response_data: Vec<u8> = vec![world.id, world_status];
        let world_data: Vec<u8> = vec![world.id];
        proof {
            assert(response_data@ =~= seq![world.id, world_status]);
            assert(world_data@ =~= seq![world.id]);
        }
        packets.push(Packet::new(answer.unwrap(), &response_data));
        packets.push(Packet::new(Action::WORLD_SNAPSHOT_BEGIN, &world_data));
        packets.push(total_players_data_packet(self));
        let ghost head = packet_models(packets@);
        self.push_snapshot(&mut packets, world.id, bind_id);
        let ghost middle = packets@;
        packets.push(Packet::new(Action::WORLD_SNAPSHOT_END, &world_data));
        proof {
            assert(snapshot_ids(self@, world.id, bind_id) =~= snapshot_ids(g, world.id, bind_id));
            assert(snapshot_packets(self@, world.id, bind_id) =~= snapshot_packets(
                g,
                world.id,
                bind_id,
            ));
            assert(packet_models(packets@) =~= packet_models(middle).push(packets@.last()@));
            assert(packet_models(packets@) =~= entry_packets(g, client_id, world, answer->0));
        }
        Ok(Entry { bind_id, starts, packets })
    }
}

/// The world that a payload asks for: number and size.
pub open spec fn world_in(data: Seq<u8>) -> World {
    World { id: data[0], y_size: le_i16(data, 1) }
}

/// Whether a player has to leave another world before it can enter.
pub open spec fn must_leave(s: ServerModel, client_id: ClientID, world_id: u8) -> bool {
    has_game(s.games, client_id) && {
        let p = player_of(game_of(s.games, client_id), client_id);
        p.world is Some && p.world->0.id != world_id
    }
}

/// The server after a player, now in no other world, has asked to enter one,
/// and why it could not.
pub open spec fn enter_outcome(
    s: ServerModel,
    client_id: ClientID,
    world: World,
    answer: Action,
) -> (ServerModel, Option<SetWorldError>) {
    let g = game_of(s.games, client_id);
    if !has_game(s.games, client_id) {
        (s, Some(SetWorldError::PlayerNotFound(client_id)))
    } else {
        match enter_refusal(g, client_id, world) {
            Some((e, after)) => (
                ServerModel { games: with_game(s.games, client_id, after), ..s },
                Some(e),
            ),
            None => {
                let p = player_of(g, client_id);
                let bind_id = p.bind->0.id;
                let entered = ServerModel {
                    games: with_game(s.games, client_id, game_entered(g, client_id, world)),
                    ..s
                };
                let status = packet_of(
                    Action::PLAYERS_STATUS,
                    seq![bind_id, status_code(Status::GAMING)],
                );
                let announced = if p.status != Status::GAMING {
                    told_all(entered, status)
                } else {
                    entered
                };
                (
                    told_each(
                        told_game(
                            announced,
                            client_id,
                            packet_of(Action::PLAYERS_WORLD, seq![bind_id, world.id]),
                        ),
                        client_id,
                        Recipients::Only(client_id),
                        entry_packets(g, client_id, world, answer),
                    ),
                    None,
                )
            },
        }
    }
}

/// The server after a player has asked to enter a world, and why it could
/// not. A player in another world leaves that one first, and has left it even
/// if it cannot enter.
pub open spec fn set_world_outcome(s: ServerModel, packet: PacketModel, client_id: ClientID) -> (
    ServerModel,
    Option<OnUpdateError>,
) {
    let world = world_in(packet.data);
    let g = game_of(s.games, client_id);
    if must_leave(s, client_id, world.id) && leave_refusal(g, client_id) is Some {
        (s, Some(OnUpdateError::LeaveWorldError(leave_refusal(g, client_id)->0)))
    } else {
        let left = if must_leave(s, client_id, world.id) {
            leave_world_effect(s, client_id)
        } else {
            s
        };
        let (after, failure) = enter_outcome(left, client_id, world, answer_of(packet.action)->0);
        match failure {
            Some(e) => (after, Some(OnUpdateError::SetWorldError(e))),
            None => (after, None),
        }
    }
}

impl Server {
    fn enter_world(
        &mut self,
        client_id: ClientID,
        world: World,
        answer: Option<Action>,
    ) -> (r: Option<SetWorldError>)
        requires
            old(self).wf(),
            enter_outcome(old(self)@, client_id, world, answer->0).1 is None ==> answer is Some,
        ensures
            final(self).wf(),
            (final(self)@, r) == enter_outcome(old(self)@, client_id, world, answer->0),
    {
        let ghost s = self@;
        let ghost g = game_of(s.games, client_id);
        proof {
            if has_game(s.games, client_id) {
                lemma_game_of(s.games, client_id);
                lemma_game_entered(g, client_id, world);
            }
        }
        let outcome = match self.get_mut_game_by_clientid(client_id) {
            Some(game) => game.enter_world(client_id, world, answer),
            None => Err(SetWorldError::PlayerNotFound(client_id)),
        };
        proof {
            if has_game(s.games, client_id) {
                match enter_refusal(g, client_id, world) {
                    Some((e, after)) => {
                        lemma_game_step(s.games, client_id, after);
                    },
                    None => {
                        lemma_game_step(s.games, client_id, game_entered(g, client_id, world));
                    },
                }
            }
        }
        match outcome {
            Ok(entry) => {
                if entry.starts {
                    let data: Vec<u8> = vec![entry.bind_id, Status::GAMING.code()];
                    assert(data@ =~= seq![entry.bind_id, status_code(Status::GAMING)]);
                    self.notify_all(client_id, &Packet::new(Action::PLAYERS_STATUS, &data));
                }
                let data: Vec<u8> = vec![entry.bind_id, world.id];
                assert(data@ =~= seq![entry.bind_id, world.id]);
                self.notify_game(client_id, &Packet::new(Action::PLAYERS_WORLD, &data));
                self.notify_each(client_id, &entry.packets, Recipients::Only(client_id));
                None
            },
            Err(err) => Some(err),
        }
    }

    /// Answers `SET_WORLD`.
    pub fn set_world(&mut self, packet: &Packet, client_id: ClientID) -> (r: Result<
        OnUpdateOk,
        OnUpdateError,
    >)
        requires
            old(self).wf(),
            packet.data@.len() >= 3,
            set_world_outcome(old(self)@, packet@, client_id).1 is None ==> answer_of(
                packet.action,
            ) is Some,
        ensures
            final(self).wf(),
            ({
                let (after, failure) = set_world_outcome(old(self)@, packet@, client_id);
                &&& final(self)@ == after
                &&& match failure {
                    Some(e) => r == Err::<OnUpdateOk, OnUpdateError>(e),
                    None => r == Ok::<OnUpdateOk, OnUpdateError>(OnUpdateOk::Complete),
                }
            }),
    {
        let world = World::new(packet.data[0], read_i16(&packet.data, 1));
        let answer = packet.action.answer();
        let ghost s = self@;
        proof {
            if has_game(s.games, client_id) {
                lemma_game_of(s.games, client_id);
            }
        }
        let needs_leave_world: bool = match self.get_game_by_clientid(client_id) {
            Some(game) => match game.get_player(client_id) {
                Some(player) => match player.world {
                    Some(current) => current.id != world.id,
                    None => false,
                },
                None => false,
            },
            None => false,
        };
        if needs_leave_world {
            let nothing: Vec<u8> = Vec::new();
            let leave = Packet::new(Action::LEAVE_WORLD, &nothing);
            if let Err(err) = self.leave_world(&leave, client_id) {
                return Err(err);
            }
        }
        match self.enter_world(client_id, world, answer) {
            Some(err) => Err(OnUpdateError::SetWorldError(err)),
            None => Ok(OnUpdateOk::Complete),
        }
    }
}

/// A player who enters a world is told of exactly the objects that it does not
/// have itself and that matter there, vangers before what they carry and both
/// before what lies about.
pub proof fn lemma_snapshot(g: GameModel, world_id: u8, joining: u8)
    requires
        game_wf(g),
    ensures
        ({
            let ids = listing(snapshot_ids(g, world_id, joining), Order::Snapshot);
            &&& forall|id: i32| #[trigger]
                ids.contains(id) <==> g.vanjects.contains_key(id) && in_snapshot(
                    g.vanjects[id],
                    world_id,
                    joining,
                )
            &&& forall|i: int, j: int|
                #![trigger ids[i], ids[j]]
                0 <= i < j < ids.len() ==> snapshot_rank(ids[i]) <= snapshot_rank(ids[j]) && ids[i]
                    != ids[j]
            &&& snapshot_packets(g, world_id, joining).len() == ids.len()
            &&& forall|i: int|
                0 <= i < ids.len() ==> #[trigger] snapshot_packets(g, world_id, joining)[i]
                    == shown_packet(g.vanjects[ids[i]])
        }),
{
    let set = snapshot_ids(g, world_id, joining);
    lemma_len_subset(set, g.vanjects.dom());
    lemma_listing_exists(set, Order::Snapshot);
    let ids = listing(set, Order::Snapshot);
    assert forall|i: int, j: int|
        #![trigger ids[i], ids[j]]
        0 <= i < j < ids.len() implies snapshot_rank(ids[i]) <= snapshot_rank(ids[j]) && ids[i]
        != ids[j] by {
        assert(place(Order::Snapshot, ids[i]) < place(Order::Snapshot, ids[j]));
    }
    assert forall|id: i32| #[trigger] ids.contains(id) <==> g.vanjects.contains_key(id)
        && in_snapshot(g.vanjects[id], world_id, joining) by {
        assert(set.contains(id) <==> g.vanjects.contains_key(id) && in_snapshot(
            g.vanjects[id],
            world_id,
            joining,
        ));
    }
}

/// A player who has entered a world is in it and plays; the game has the
/// world, with the size that was given, and the objects that it had before.
pub proof fn lemma_what_entering_comes_to(g: GameModel, client_id: ClientID, world: World)
    requires
        has_player(g.players, client_id),
        enter_refusal(g, client_id, world) is None,
    ensures
        ({
            let after = game_entered(g, client_id, world);
            &&& player_of(after, client_id) == (PlayerModel {
                world: Some(world),
                status: Status::GAMING,
                ..player_of(g, client_id)
            })
            &&& has_world(after.worlds, world.id)
            &&& world_with(after.worlds, world.id) == world
            &&& after.vanjects == g.vanjects
        }),
{
    let opened = world_opened(g, world);
    lemma_player_of(g.players, client_id);
    lemma_player_change_keeps_place(
        opened,
        client_id,
        PlayerModel { world: Some(world), status: Status::GAMING, ..player_of(g, client_id) },
    );
    if has_world(g.worlds, world.id) {
        let i = choose|i: int| is_world_at(g.worlds, world.id, i);
        assert(is_world_at(g.worlds, world.id, i));
    } else {
        let after = opened.worlds;
        let last = g.worlds.len() as int;
        assert forall|j: int| 0 <= j < last implies (#[trigger] after[j]).id != world.id by {
            assert(after[j] == g.worlds[j]);
            if g.worlds[j].id == world.id {
                lemma_some_world(g.worlds, world.id, j);
            }
        }
        assert(is_world_at(after, world.id, last));
        let k = choose|k: int| is_world_at(after, world.id, k);
        assert(is_world_at(after, world.id, k));
        assert(k == last) by {
            if k < last {
                assert(after[k].id != world.id);
            }
        }
    }
}

proof fn lemma_some_world(worlds: Seq<World>, id: u8, i: int)
    requires
        0 <= i < worlds.len(),
        worlds[i].id == id,
    ensures
        has_world(worlds, id),
    decreases i,
{
    if forall|j: int| 0 <= j < i ==> (#[trigger] worlds[j]).id != id {
        assert(is_world_at(worlds, id, i));
    } else {
        let j = choose|j: int| 0 <= j < i && (#[trigger] worlds[j]).id == id;
        lemma_some_world(worlds, id, j);
    }
}

/// A player who comes from another world takes its things out of the game; one
/// who comes from nowhere, or from the same world, takes nothing.
pub proof fn lemma_entering_clears_the_old_world(
    s: ServerModel,
    packet: PacketModel,
    client_id: ClientID,
)
    requires
        games_wf(s.games),
        has_game(s.games, client_id),
        set_world_outcome(s, packet, client_id).1 is None,
    ensures
        ({
            let g = game_of(s.games, client_id);
            let after = game_of(set_world_outcome(s, packet, client_id).0.games, client_id);
            after.vanjects == if must_leave(s, client_id, world_in(packet.data).id) {
                game_left(g, client_id).vanjects
            } else {
                g.vanjects
            }
        }),
{
    let world = world_in(packet.data);
    let answer = answer_of(packet.action)->0;
    let g = game_of(s.games, client_id);
    lemma_game_of(s.games, client_id);
    let left = if must_leave(s, client_id, world.id) {
        leave_world_effect(s, client_id)
    } else {
        s
    };
    if must_leave(s, client_id, world.id) {
        lemma_game_left(g, client_id);
        lemma_game_step(s.games, client_id, game_left(g, client_id));
        let moved = ServerModel {
            games: with_game(s.games, client_id, game_left(g, client_id)),
            ..s
        };
        lemma_told_each_keeps_games(
            moved,
            client_id,
            Recipients::AllBut(client_id),
            leave_packets(g, client_id),
        );
    }
    let h = game_of(left.games, client_id);
    lemma_game_of(left.games, client_id);
    lemma_game_entered(h, client_id, world);
    lemma_game_step(left.games, client_id, game_entered(h, client_id, world));
    let entered = ServerModel {
        games: with_game(left.games, client_id, game_entered(h, client_id, world)),
        ..left
    };
    let bind_id = player_of(h, client_id).bind->0.id;
    let status = packet_of(Action::PLAYERS_STATUS, seq![bind_id, status_code(Status::GAMING)]);
    let announced = if player_of(h, client_id).status != Status::GAMING {
        told_all(entered, status)
    } else {
        entered
    };
    let news = told_game(
        announced,
        client_id,
        packet_of(Action::PLAYERS_WORLD, seq![bind_id, world.id]),
    );
    lemma_told_each_keeps_games(
        news,
        client_id,
        Recipients::Only(client_id),
        entry_packets(h, client_id, world, answer),
    );
}

} // verus!
