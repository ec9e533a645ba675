//! `CREATE_OBJECT`: an object comes into being.

use vstd::prelude::*;

use crate::client::ClientID;
use crate::frames::packet_models;
use crate::game::{
    game_wf, has_player, lemma_player_change_keeps_place, lemma_player_change_keeps_wf,
    lemma_player_of, lemma_vanjects_insert, player_of, vanject_models, with_player, Game,
    GameModel,
};
use crate::games::{game_of, games_wf, has_game, lemma_game_of, lemma_game_step, with_game};
use crate::player::{PlayerModel, BODY_SIZE};
use crate::protocol::{packet_of, Action, Packet, PacketModel};
use crate::server::{
    lemma_told_each_keeps_games, told_each, told_game, told_world, Recipients, Server, ServerModel,
};
use crate::vanject::{
    created_object, get_vanject_type, get_world, is_non_global_vanject, non_global_id, pos_bytes,
    type_of, world_of, Vanject, VanjectError, VanjectModel, CREATE_HEADER_SIZE, NID,
};

use super::item_transfer::{
    is_item, is_item_vanject, item_has_paired_vanject, items_single, lemma_item_has_two_forms,
    linked_id, object_packet, paired_id, same_item, shown_packet,
};
use super::{OnUpdateError, OnUpdateOk};

verus! {

broadcast use vstd::std_specs::hash::group_hash_axioms;

/// Why an object was not created.
#[derive(Clone, Copy, Debug, PartialEq, Eq, Structural)]
pub enum CreateObjectError {
    /// The object cannot be read.
    SliceToVanjectParse(VanjectError),
    /// The client is in no game.
    PlayerNotFound(ClientID),
    /// The player has no number in its game.
    PlayerNotBind(ClientID),
    /// The item exists in its other form, which only a transfer may change:
    /// id, the id of the other form.
    PairedItemAlreadyExists(i32, i32),
}

/// Why a game does not take in the object `v` of the player over `client_id`.
/// An object that is already there is never turned down.
pub open spec fn create_refusal(g: GameModel, client_id: ClientID, v: VanjectModel) -> Option<
    CreateObjectError,
> {
    if g.vanjects.contains_key(v.id) {
        None
    } else if is_item(v) && paired_id(v, g.vanjects) is Some {
        Some(CreateObjectError::PairedItemAlreadyExists(v.id, paired_id(v, g.vanjects)->0))
    } else if player_of(g, client_id).bind is None {
        Some(CreateObjectError::PlayerNotBind(client_id))
    } else {
        None
    }
}

/// What the sender is told if the object is already there: what it is, and
/// where, if it is a vanger.
pub open spec fn replay_packets(v: VanjectModel) -> Seq<PacketModel> {
    if type_of(v.id) == NID::VANGER {
        seq![
            shown_packet(v),
            packet_of(Action::PLAYERS_POSITION, seq![v.player_bind_id] + pos_bytes(v.pos)),
        ]
    } else {
        seq![shown_packet(v)]
    }
}

/// The object once the player over `client_id` owns it.
pub open spec fn owned(g: GameModel, client_id: ClientID, v: VanjectModel) -> VanjectModel {
    VanjectModel { player_bind_id: player_of(g, client_id).bind->0.id, ..v }
}

/// The player after it brought in its vanger: it is where the vanger is, and
/// has its record, if that is complete.
pub open spec fn driver(p: PlayerModel, v: VanjectModel) -> PlayerModel {
    PlayerModel {
        pos: v.pos,
        body: if v.body.len() < BODY_SIZE {
            p.body
        } else {
            Some(v.body.take(BODY_SIZE as int))
        },
        ..p
    }
}

/// The game after it took in the object `v`.
pub open spec fn game_created(g: GameModel, client_id: ClientID, v: VanjectModel) -> GameModel {
    let peopled = if type_of(v.id) == NID::VANGER {
        with_player(g, client_id, driver(player_of(g, client_id), v))
    } else {
        g
    };
    GameModel { vanjects: g.vanjects.insert(v.id, owned(g, client_id, v)), ..peopled }
}

/// Whether the others are told of a new object: not of a vanger without a
/// complete record.
pub open spec fn announced(v: VanjectModel) -> bool {
    type_of(v.id) != NID::VANGER || v.body.len() >= BODY_SIZE
}

/// What came of an object that was to be created.
pub enum Creation {
    /// It was there; the sender is told this.
    Known(Vec<Packet>),
    /// It is new; the others are told this, if anything.
    Fresh(Option<Packet>),
}

/// A game that took in an object is well-formed and still has the player.
pub proof fn lemma_game_created(g: GameModel, client_id: ClientID, v: VanjectModel)
    requires
        game_wf(g),
        has_player(g.players, client_id),
    ensures
        game_wf(game_created(g, client_id, v)),
        has_player(game_created(g, client_id, v).players, client_id),
{
    lemma_player_of(g.players, client_id);
    let p = driver(player_of(g, client_id), v);
    lemma_player_change_keeps_wf(g, client_id, p);
    lemma_player_change_keeps_place(g, client_id, p);
}

/// The packets that show an object to a sender who tried to create it again.
fn replay(vanject: &Vanject) -> (packets: Vec<Packet>)
    ensures
        packet_models(packets@) == replay_packets(vanject@),
{
    let mut packets: Vec<Packet> = Vec::new();
    packets.push(object_packet(vanject));
    if vanject.get_type() == NID::VANGER {
        let mut data: Vec<u8> = Vec::new();
        data.push(vanject.player_bind_id);
        vanject.pos.push_bytes(&mut data);
        assert(data@ =~= seq![vanject.player_bind_id] + pos_bytes(vanject.pos));
        packets.push(Packet::new(Action::PLAYERS_POSITION, &data));
    }
    assert(packet_models(packets@) =~= replay_packets(vanject@));
    packets
}

impl Game {
    /// Takes in `vanject` as an object of the player over `client_id`, unless
    /// it is already there or something speaks against it.
    pub fn create_object(&mut self, client_id: ClientID, vanject: Vanject) -> (r: Result<
        Creation,
        CreateObjectError,
    >)
        requires
            game_wf(old(self)@),
            has_player(old(self)@.players, client_id),
        ensures
            game_wf(final(self)@),
            has_player(final(self)@.players, client_id),
            match create_refusal(old(self)@, client_id, vanject@) {
                Some(e) => r == Err::<Creation, CreateObjectError>(e) && final(self)@ == old(
                    self,
                )@,
                None => if old(self)@.vanjects.contains_key(vanject.id) {
                    &&& final(self)@ == old(self)@
                    &&& (r matches Ok(Creation::Known(packets)) && packet_models(packets@)
                        == replay_packets(old(self)@.vanjects[vanject.id]))
                } else {
                    &&& final(self)@ == game_created(old(self)@, client_id, vanject@)
                    &&& r matches Ok(Creation::Fresh(packet))
                    &&& announced(vanject@) == (packet is Some)
                    &&& packet is Some ==> packet->0@ == shown_packet(
                        owned(old(self)@, client_id, vanject@),
                    )
                },
            },
    {
        let ghost g = self@;
        let ghost v0 = vanject@;
        proof {
            lemma_player_of(g.players, client_id);
            lemma_game_created(g, client_id, v0);
        }
        let mut vanject = vanject;
        let id: i32 = vanject.id;
        if let Some(existing) = self.vanjects.get(&id) {
            assert(g.vanjects.contains_key(id) && g.vanjects[id] == existing@);
            return Ok(Creation::Known(replay(existing)));
        }
        assert(!g.vanjects.contains_key(id));
        if is_item_vanject(&vanject) {
            if let Some(paired_id) = item_has_paired_vanject(&vanject, &self.vanjects) {
                return Err(CreateObjectError::PairedItemAlreadyExists(id, paired_id));
            }
        }
        let bound = match self.get_player(client_id) {
            Some(player) => vanject.bind_to_player(player).is_ok(),
            None => false,
        };
        if !bound {
            return Err(CreateObjectError::PlayerNotBind(client_id));
        }
        assert(vanject@ == owned(g, client_id, v0));
        let mut announce = true;
        if vanject.get_type() == NID::VANGER {
            if let Some(player) = self.get_mut_player(client_id) {
                player.pos = vanject.pos;
                announce = player.set_body(&vanject.body).is_ok();
            }
        }
        let packet = if announce {
            Some(object_packet(&vanject))
        } else {
            None
        };
        let ghost objects = self.vanjects@;
        let ghost v = vanject;
        assert(vanject_models(objects) == g.vanjects);
        self.vanjects.insert(id, vanject);
        proof {
            lemma_vanjects_insert(objects, id, v);
            assert(self@ =~= game_created(g, client_id, v0));
        }
        Ok(Creation::Fresh(packet))
    }
}

/// Why the server does not create the object that `data` describes.
pub open spec fn create_object_refusal(
    s: ServerModel,
    data: Seq<u8>,
    client_id: ClientID,
) -> Option<CreateObjectError> {
    if data.len() < CREATE_HEADER_SIZE {
        Some(
            CreateObjectError::SliceToVanjectParse(
                VanjectError::SliceTooSmall(data.len() as usize),
            ),
        )
    } else if !has_game(s.games, client_id) {
        Some(CreateObjectError::PlayerNotFound(client_id))
    } else {
        create_refusal(game_of(s.games, client_id), client_id, created_object(data))
    }
}

/// The server after the object that `data` describes was created. Of an object
/// that was already there the sender alone is told; of a new one the others in
/// its world are, or all others in the game if it belongs to no world.
pub open spec fn create_object_effect(
    s: ServerModel,
    data: Seq<u8>,
    client_id: ClientID,
) -> ServerModel {
    let v = created_object(data);
    let g = game_of(s.games, client_id);
    if g.vanjects.contains_key(v.id) {
        told_each(s, client_id, Recipients::Only(client_id), replay_packets(g.vanjects[v.id]))
    } else {
        let after = ServerModel {
            games: with_game(s.games, client_id, game_created(g, client_id, v)),
            ..s
        };
        let packet = shown_packet(owned(g, client_id, v));
        if !announced(v) {
            after
        } else if type_of(v.id) == NID::VANGER || non_global_id(v.id) {
            told_world(after, client_id, world_of(v.id) as u8, packet, false)
        } else {
            told_game(after, client_id, packet)
        }
    }
}

impl Server {
    /// Answers `CREATE_OBJECT`.
    pub fn create_object(&mut self, packet: &Packet, client_id: ClientID) -> (r: Result<
        OnUpdateOk,
        OnUpdateError,
    >)
        requires
            old(self).wf(),
        ensures
            final(self).wf(),
            match create_object_refusal(old(self)@, packet.data@, client_id) {
                Some(e) => {
                    &&& r == Err::<OnUpdateOk, OnUpdateError>(OnUpdateError::CreateObjectError(e))
                    &&& final(self)@ == old(self)@
                },
                None => {
                    &&& r == Ok::<OnUpdateOk, OnUpdateError>(OnUpdateOk::Complete)
                    &&& final(self)@ == create_object_effect(old(self)@, packet.data@, client_id)
                },
            },
    {
        let vanject = match Vanject::create_from_slice(&packet.data) {
            Ok(vanject) => vanject,
            Err(err) => {
                return Err(
                    OnUpdateError::CreateObjectError(CreateObjectError::SliceToVanjectParse(err)),
                );
            },
        };
        let id: i32 = vanject.id;
        let ghost s = self@;
        let ghost v = vanject@;
        proof {
            if has_game(s.games, client_id) {
                lemma_game_of(s.games, client_id);
                lemma_game_created(game_of(s.games, client_id), client_id, v);
            }
        }
        let outcome = match self.get_mut_game_by_clientid(client_id) {
            Some(game) => game.create_object(client_id, vanject),
            None => Err(CreateObjectError::PlayerNotFound(client_id)),
        };
        proof {
            if has_game(s.games, client_id) {
                let g = game_of(s.games, client_id);
                lemma_game_step(s.games, client_id, g);
                lemma_game_step(s.games, client_id, game_created(g, client_id, v));
            }
        }
        match outcome {
            Ok(Creation::Known(packets)) => {
                self.notify_each(client_id, &packets, Recipients::Only(client_id));
                Ok(OnUpdateOk::Complete)
            },
            Ok(Creation::Fresh(announcement)) => {
                if let Some(answer) = announcement {
                    if get_vanject_type(id) == NID::VANGER || is_non_global_vanject(id) {
                        self.notify_world(client_id, get_world(id) as u8, &answer, false);
                    } else {
                        self.notify_game(client_id, &answer);
                    }
                }
                Ok(OnUpdateOk::Complete)
            },
            Err(err) => Err(OnUpdateError::CreateObjectError(err)),
        }
    }
}

/// A new item that is taken in is not there in its other form.
pub proof fn lemma_created_item_has_no_other_form(
    g: GameModel,
    client_id: ClientID,
    v: VanjectModel,
)
    requires
        create_refusal(g, client_id, v) is None,
        !g.vanjects.contains_key(v.id),
        is_item(v),
    ensures
        paired_id(v, g.vanjects) is None,
{
}

/// Creating an object a second time changes no game.
pub proof fn lemma_create_again_changes_nothing(s: ServerModel, data: Seq<u8>, client_id: ClientID)
    requires
        games_wf(s.games),
        create_object_refusal(s, data, client_id) is None,
    ensures
        ({
            let once = create_object_effect(s, data, client_id);
            &&& create_object_refusal(once, data, client_id) is None
            &&& create_object_effect(once, data, client_id).games == once.games
        }),
{
    let v = created_object(data);
    let g = game_of(s.games, client_id);
    let once = create_object_effect(s, data, client_id);
    lemma_game_of(s.games, client_id);
    if g.vanjects.contains_key(v.id) {
        let packets = replay_packets(g.vanjects[v.id]);
        lemma_told_each_keeps_games(s, client_id, Recipients::Only(client_id), packets);
    } else {
        lemma_game_created(g, client_id, v);
        lemma_game_step(s.games, client_id, game_created(g, client_id, v));
    }
    let packets = replay_packets(game_of(once.games, client_id).vanjects[v.id]);
    lemma_told_each_keeps_games(once, client_id, Recipients::Only(client_id), packets);
}

/// A new item that names its other form doubles no item.
pub proof fn lemma_create_doubles_no_item(g: GameModel, client_id: ClientID, v: VanjectModel)
    requires
        items_single(g.vanjects),
        create_refusal(g, client_id, v) is None,
        is_item(v) ==> (linked_id(v) is Some && linked_id(v)->0 != v.id && same_item(
            v.id,
            linked_id(v)->0,
        )),
    ensures
        !g.vanjects.contains_key(v.id) ==> items_single(game_created(g, client_id, v).vanjects),
{
    let after = game_created(g, client_id, v).vanjects;
    assert forall|a: i32, b: i32|
        #![trigger after.contains_key(a), after.contains_key(b)]
        !g.vanjects.contains_key(v.id) && after.contains_key(a) && after.contains_key(b)
            && same_item(a, b) implies a == b by {
        if a == v.id && b != v.id {
            lemma_item_has_two_forms(v.id, b, linked_id(v)->0);
        } else if b == v.id && a != v.id {
            lemma_item_has_two_forms(v.id, a, linked_id(v)->0);
        } else if a != v.id && b != v.id {
            assert(g.vanjects.contains_key(a) && g.vanjects.contains_key(b));
        }
    }
}

} // verus!
