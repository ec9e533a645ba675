//! Games: their players, worlds and objects.

use std::collections::HashMap;
use vstd::prelude::*;

use crate::bytes::copy_range;
use crate::client::ClientID;
use crate::player::{player_wf, Bind, Player, PlayerModel, Status};
use crate::vanject::{Vanject, VanjectModel};

verus! {

broadcast use vstd::std_specs::hash::group_hash_axioms;

/// A world of a game.
#[derive(Clone, Copy, Debug, PartialEq, Eq, Structural)]
pub struct World {
    pub id: u8,
    pub y_size: i16,
}

impl World {
    /// The world with number `id`, `y_size` long.
    pub fn new(id: u8, y_size: i16) -> (w: World)
        ensures
            w == (World { id, y_size }),
    {
        World { id, y_size }
    }
}

/// The kinds of games.
#[allow(non_camel_case_types)]
#[allow(clippy::upper_case_acronyms)]
#[derive(Clone, Copy, Debug, PartialEq, Eq, Structural)]
pub enum Type {
    VAN_WAR,
    MECHOSOMA,
    PASSEMBLOSS,
    HUNTAGE,
}

/// The byte that stands for a kind of game on the wire.
pub open spec fn type_code(t: Type) -> u8 {
    match t {
        Type::VAN_WAR => 0,
        Type::MECHOSOMA => 1,
        Type::PASSEMBLOSS => 2,
        Type::HUNTAGE => 3,
    }
}

impl Type {
    /// The byte that stands for this kind of game on the wire.
    pub fn code(self) -> (r: u8)
        ensures
            r == type_code(self),
    {
        match self {
            Type::VAN_WAR => 0,
            Type::MECHOSOMA => 1,
            Type::PASSEMBLOSS => 2,
            Type::HUNTAGE => 3,
        }
    }
}

/// What the players of a game agreed on.
#[derive(Clone, Copy, Debug, PartialEq, Eq, Structural)]
pub struct Config {
    pub gmtype: Type,
}

impl Config {
    /// The settings of a game of the kind `gmtype`.
    pub fn new(gmtype: Type) -> (c: Config)
        ensures
            c == (Config { gmtype }),
    {
        Config { gmtype }
    }
}

/// What is remembered of a player who has left a game.
#[derive(Debug)]
pub struct RemovedPlayer {
    pub name: Vec<u8>,
    pub body: Vec<u8>,
}

/// The value of a [`RemovedPlayer`].
#[verifier::ext_equal]
pub struct RemovedModel {
    pub name: Seq<u8>,
    pub body: Seq<u8>,
}

impl View for RemovedPlayer {
    type V = RemovedModel;

    open spec fn view(&self) -> RemovedModel {
        RemovedModel { name: self.name@, body: self.body@ }
    }
}

/// What is remembered of a player: its name and record, if it has both.
pub open spec fn remembered(p: PlayerModel) -> Option<RemovedModel> {
    match (p.auth, p.body) {
        (Some(auth), Some(body)) => Some(RemovedModel { name: auth.name, body }),
        _ => None,
    }
}

impl RemovedPlayer {
    /// What is to be remembered of `player`, if it has a name and a record.
    pub fn from_player(player: &Player) -> (r: Option<RemovedPlayer>)
        ensures
            match remembered(player@) {
                Some(m) => r matches Some(p) && p@ == m,
                None => r is None,
            },
    {
        match (&player.auth, &player.body) {
            (Some(auth), Some(body)) => {
                let name = copy_range(&auth.name, 0, auth.name.len());
                let bytes = copy_range(&body.bytes, 0, body.bytes.len());
                assert(name@ =~= auth.name@);
                assert(bytes@ =~= body.bytes@);
                Some(RemovedPlayer { name, body: bytes })
            },
            _ => None,
        }
    }
}

/// A game.
#[derive(Debug)]
pub struct Game {
    pub id: u32,
    pub config: Option<Config>,
    pub players: Vec<Player>,
    pub removed_players: Vec<RemovedPlayer>,
    pub worlds: Vec<World>,
    pub vanjects: HashMap<i32, Vanject>,
}

/// The value of a [`Game`].
#[verifier::ext_equal]
pub struct GameModel {
    pub id: u32,
    pub config: Option<Config>,
    pub players: Seq<PlayerModel>,
    pub removed_players: Seq<RemovedModel>,
    pub worlds: Seq<World>,
    pub vanjects: Map<i32, VanjectModel>,
}

/// Players, as values.
pub open spec fn player_models(players: Seq<Player>) -> Seq<PlayerModel> {
    players.map_values(|p: Player| p@)
}

/// Players who have left, as values.
pub open spec fn removed_models(players: Seq<RemovedPlayer>) -> Seq<RemovedModel> {
    players.map_values(|p: RemovedPlayer| p@)
}

/// Objects, as values.
pub open spec fn vanject_models(vanjects: Map<i32, Vanject>) -> Map<i32, VanjectModel> {
    vanjects.map_values(|v: Vanject| v@)
}

impl View for Game {
    type V = GameModel;

    open spec fn view(&self) -> GameModel {
        GameModel {
            id: self.id,
            config: self.config,
            players: player_models(self.players@),
            removed_players: removed_models(self.removed_players@),
            worlds: self.worlds@,
            vanjects: vanject_models(self.vanjects@),
        }
    }
}

/// The largest number that a player can have in its game: the station in the
/// ids of its objects has six bits.
pub const MAX_BIND_ID: u8 = 63;

/// Whether a player of the game has the number `id`.
pub open spec fn bind_taken(players: Seq<PlayerModel>, id: u8) -> bool {
    exists|i: int| 0 <= i < players.len() && (#[trigger] players[i]).bind == Some(Bind { id })
}

/// Whether `id` is the smallest number that no player of the game has.
pub open spec fn is_next_number(players: Seq<PlayerModel>, id: u8) -> bool {
    &&& 1 <= id <= MAX_BIND_ID
    &&& !bind_taken(players, id)
    &&& forall|k: u8| 1 <= k < id ==> #[trigger] bind_taken(players, k)
}

/// The number for the next player who comes into a game, if it is not full.
pub open spec fn next_number(players: Seq<PlayerModel>) -> Option<u8> {
    if exists|id: u8| is_next_number(players, id) {
        Some(choose|id: u8| is_next_number(players, id))
    } else {
        None
    }
}

/// The game after a player has come in.
pub open spec fn attached(g: GameModel, p: PlayerModel) -> GameModel {
    match next_number(g.players) {
        Some(id) => GameModel {
            players: g.players.push(PlayerModel { bind: Some(Bind { id }), ..p }),
            ..g
        },
        None => g,
    }
}

/// Whether no two players have the same number.
pub open spec fn binds_distinct(players: Seq<PlayerModel>) -> bool {
    forall|i: int, j: int|
        #![trigger players[i], players[j]]
        0 <= i < j < players.len() && players[i].bind is Some ==> players[i].bind
            != players[j].bind
}

/// What holds of every game: its objects can be counted, each is filed under
/// its own id, no two players have the same number, records are complete.
pub open spec fn game_wf(g: GameModel) -> bool {
    &&& g.vanjects.dom().finite()
    &&& forall|id: i32| #[trigger] g.vanjects.contains_key(id) ==> g.vanjects[id].id == id
    &&& binds_distinct(g.players)
    &&& forall|i: int| 0 <= i < g.players.len() ==> player_wf(#[trigger] g.players[i])
}

/// Whether the first player over the connection `client_id` stands at `i`.
pub open spec fn is_first_player(players: Seq<PlayerModel>, client_id: ClientID, i: int) -> bool {
    &&& 0 <= i < players.len()
    &&& players[i].client_id == client_id
    &&& forall|j: int| 0 <= j < i ==> (#[trigger] players[j]).client_id != client_id
}

/// Whether a player of the game came in over the connection `client_id`.
pub open spec fn has_player(players: Seq<PlayerModel>, client_id: ClientID) -> bool {
    exists|i: int| is_first_player(players, client_id, i)
}

/// Where the first player over the connection `client_id` stands.
pub open spec fn player_at(players: Seq<PlayerModel>, client_id: ClientID) -> int {
    choose|i: int| is_first_player(players, client_id, i)
}

/// The first player over the connection `client_id`.
pub open spec fn player_of(g: GameModel, client_id: ClientID) -> PlayerModel {
    g.players[player_at(g.players, client_id)]
}

/// The game with another first player over the connection `client_id`.
pub open spec fn with_player(g: GameModel, client_id: ClientID, p: PlayerModel) -> GameModel {
    GameModel { players: g.players.update(player_at(g.players, client_id), p), ..g }
}

/// A game without players, worlds and objects.
pub open spec fn empty_game(id: u32) -> GameModel {
    GameModel {
        id,
        config: None,
        players: Seq::empty(),
        removed_players: Seq::empty(),
        worlds: Seq::empty(),
        vanjects: Map::empty(),
    }
}

/// Objects filed, as values, after one more was filed.
pub proof fn lemma_vanjects_insert(m: Map<i32, Vanject>, id: i32, v: Vanject)
    ensures
        vanject_models(m.insert(id, v)) == vanject_models(m).insert(id, v@),
{
    assert(vanject_models(m.insert(id, v)) =~= vanject_models(m).insert(id, v@));
}

/// Objects filed, as values, after one was taken out.
pub proof fn lemma_vanjects_remove(m: Map<i32, Vanject>, id: i32)
    ensures
        vanject_models(m.remove(id)) == vanject_models(m).remove(id),
{
    assert(vanject_models(m.remove(id)) =~= vanject_models(m).remove(id));
}

/// A player is found where it is first.
pub proof fn lemma_first_player(players: Seq<PlayerModel>, client_id: ClientID, i: int)
    requires
        is_first_player(players, client_id, i),
    ensures
        has_player(players, client_id),
        player_at(players, client_id) == i,
{
    let k = player_at(players, client_id);
    assert(is_first_player(players, client_id, k));
    if k < i {
        assert(players[k].client_id == client_id);
    } else if i < k {
        assert(players[i].client_id == client_id);
    }
}

/// Where no player came in over a connection, none is found.
pub proof fn lemma_no_player(players: Seq<PlayerModel>, client_id: ClientID)
    requires
        forall|j: int| 0 <= j < players.len() ==> (#[trigger] players[j]).client_id != client_id,
    ensures
        !has_player(players, client_id),
{
}

/// A player of the game is found over its connection.
pub proof fn lemma_player_of(players: Seq<PlayerModel>, client_id: ClientID)
    requires
        has_player(players, client_id),
    ensures
        is_first_player(players, client_id, player_at(players, client_id)),
        0 <= player_at(players, client_id) < players.len(),
        players[player_at(players, client_id)].client_id == client_id,
{
}

/// A player who changes and keeps its connection is still the first over it.
pub proof fn lemma_player_change_keeps_place(g: GameModel, client_id: ClientID, p: PlayerModel)
    requires
        has_player(g.players, client_id),
        p.client_id == client_id,
    ensures
        has_player(with_player(g, client_id, p).players, client_id),
        player_at(with_player(g, client_id, p).players, client_id) == player_at(
            g.players,
            client_id,
        ),
        player_of(with_player(g, client_id, p), client_id) == p,
{
    let i = player_at(g.players, client_id);
    assert(is_first_player(g.players, client_id, i));
    let after = with_player(g, client_id, p).players;
    assert forall|j: int| 0 <= j < i implies (#[trigger] after[j]).client_id != client_id by {
        assert(after[j] == g.players[j]);
    }
    lemma_first_player(after, client_id, i);
}

/// A game stays well-formed when a player changes but for its number.
pub proof fn lemma_player_change_keeps_wf(g: GameModel, client_id: ClientID, p: PlayerModel)
    requires
        game_wf(g),
        has_player(g.players, client_id),
        p.bind == player_of(g, client_id).bind,
        player_wf(p),
    ensures
        game_wf(with_player(g, client_id, p)),
{
    let i = player_at(g.players, client_id);
    assert(is_first_player(g.players, client_id, i));
    let after = g.players.update(i, p);
    assert forall|a: int, b: int|
        #![trigger after[a], after[b]]
        0 <= a < b < after.len() && after[a].bind is Some implies after[a].bind
        != after[b].bind by {
        assert(after[a].bind == g.players[a].bind);
        assert(after[b].bind == g.players[b].bind);
    }
}

/// A player is found over its connection, wherever it stands.
pub proof fn lemma_some_player(players: Seq<PlayerModel>, k: int)
    requires
        0 <= k < players.len(),
    ensures
        has_player(players, players[k].client_id),
    decreases k,
{
    let id = players[k].client_id;
    if forall|j: int| 0 <= j < k ==> (#[trigger] players[j]).client_id != id {
        assert(is_first_player(players, id, k));
    } else {
        let j = choose|j: int| 0 <= j < k && (#[trigger] players[j]).client_id == id;
        lemma_some_player(players, j);
    }
}

/// The smallest free number is the next one.
pub proof fn lemma_next_number(players: Seq<PlayerModel>, id: u8)
    requires
        is_next_number(players, id),
    ensures
        next_number(players) == Some(id),
{
    let k = choose|k: u8| is_next_number(players, k);
    if k < id {
        assert(bind_taken(players, k));
    } else if id < k {
        assert(bind_taken(players, id));
    }
}

impl Game {
    /// An empty game.
    pub fn new(id: u32) -> (g: Game)
        ensures
            g@ == empty_game(id),
            game_wf(g@),
    {
        let g = Game {
            id,
            config: None,
            players: Vec::new(),
            removed_players: Vec::new(),
            worlds: Vec::new(),
            vanjects: HashMap::new(),
        };
        assert(g@ =~= empty_game(id)) by {
            assert(g@.players =~= Seq::empty());
            assert(g@.removed_players =~= Seq::empty());
            assert(g@.worlds =~= Seq::empty());
            assert(g@.vanjects =~= Map::empty());
        }
        g
    }

    /// Where the first player over the connection `client_id` stands.
    pub fn find_player(&self, client_id: ClientID) -> (r: Option<usize>)
        ensures
            match r {
                Some(i) => is_first_player(self@.players, client_id, i as int) && has_player(
                    self@.players,
                    client_id,
                ) && i == player_at(self@.players, client_id),
                None => !has_player(self@.players, client_id),
            },
    {
        let mut i: usize = 0;
        while i < self.players.len()
            invariant
                0 <= i <= self.players@.len(),
                forall|j: int|
                    0 <= j < i ==> (#[trigger] self@.players[j]).client_id != client_id,
            decreases self.players@.len() - i,
        {
            assert(self@.players[i as int] == self.players@[i as int]@);
            if self.players[i].client_id == client_id {
                proof {
                    lemma_first_player(self@.players, client_id, i as int);
                }
                return Some(i);
            }
            i = i + 1;
        }
        proof {
            lemma_no_player(self@.players, client_id);
        }
        None
    }

    /// The first player over the connection `client_id`.
    pub fn get_player(&self, client_id: ClientID) -> (r: Option<&Player>)
        ensures
            match r {
                Some(p) => has_player(self@.players, client_id) && p@ == player_of(
                    self@,
                    client_id,
                ),
                None => !has_player(self@.players, client_id),
            },
    {
        match self.find_player(client_id) {
            Some(i) => Some(&self.players[i]),
            None => None,
        }
    }

    /// The first player over the connection `client_id`, to be changed.
    pub fn get_mut_player(&mut self, client_id: ClientID) -> (r: Option<&mut Player>)
        ensures
            match r {
                Some(p) => has_player(old(self)@.players, client_id) && p@ == player_of(
                    old(self)@,
                    client_id,
                ) && final(self)@ == with_player(old(self)@, client_id, final(p)@),
                None => !has_player(old(self)@.players, client_id) && final(self)@ == old(self)@,
            },
    {
        match self.find_player(client_id) {
            Some(i) => {
                let p = &mut self.players[i];
                Some(p)
            },
            None => None,
        }
    }

    fn is_bind_taken(&self, id: u8) -> (r: bool)
        ensures
            r == bind_taken(self@.players, id),
    {
        let mut i: usize = 0;
        while i < self.players.len()
            invariant
                0 <= i <= self.players@.len(),
                forall|j: int|
                    0 <= j < i ==> (#[trigger] self@.players[j]).bind != Some(Bind { id }),
            decreases self.players@.len() - i,
        {
            assert(self@.players[i as int] == self.players@[i as int]@);
            if let Some(bind) = self.players[i].bind {
                if bind.id == id {
                    return true;
                }
            }
            i = i + 1;
        }
        false
    }

    /// Takes `player` into the game under the smallest free number, which is
    /// the result; there is none where the game is full.
    pub fn attach_player(&mut self, player: Player) -> (r: Option<u8>)
        ensures
            match r {
                Some(id) => {
                    &&& 1 <= id <= MAX_BIND_ID
                    &&& !bind_taken(old(self)@.players, id)
                    &&& forall|k: u8| 1 <= k < id ==> #[trigger] bind_taken(old(self)@.players, k)
                    &&& final(self)@ == (GameModel {
                        players: old(self)@.players.push(
                            (PlayerModel { bind: Some(Bind { id }), ..player@ }),
                        ),
                        ..old(self)@
                    })
                },
                None => {
                    &&& forall|k: u8|
                        1 <= k <= MAX_BIND_ID ==> #[trigger] bind_taken(old(self)@.players, k)
                    &&& final(self)@ == old(self)@
                },
            },
            game_wf(old(self)@) && player_wf(player@) ==> game_wf(final(self)@),
            r == next_number(old(self)@.players),
            final(self)@ == attached(old(self)@, player@),
    {
        let mut id: u8 = 1;
        while id <= MAX_BIND_ID
            invariant
                1 <= id <= MAX_BIND_ID + 1,
                *self == *old(self),
                forall|k: u8| 1 <= k < id ==> #[trigger] bind_taken(self@.players, k),
            decreases MAX_BIND_ID + 1 - id,
        {
            if !self.is_bind_taken(id) {
                let mut attached = player;
                attached.bind = Some(Bind { id });
                let ghost before = self@.players;
                self.players.push(attached);
                proof {
                    lemma_next_number(before, id);
                    assert(self@.players =~= before.push(attached@));
                    if game_wf(old(self)@) && player_wf(player@) {
                        let after = self@.players;
                        assert forall|a: int, b: int|
                            #![trigger after[a], after[b]]
                            0 <= a < b < after.len() && after[a].bind is Some implies after[a].bind
                            != after[b].bind by {
                            assert(after[a] == before[a]);
                            if b < before.len() {
                                assert(after[b] == before[b]);
                            }
                        }
                    }
                }
                return Some(id);
            }
            id = id + 1;
        }
        None
    }

    /// Puts the player over the connection `client_id` into `world`, where it
    /// now plays. Whether it did not play before is the result.
    pub fn place_player(&mut self, client_id: ClientID, world: &World) -> (r: bool)
        ensures
            has_player(old(self)@.players, client_id) ==> {
                let p = player_of(old(self)@, client_id);
                &&& r == (p.status != Status::GAMING)
                &&& final(self)@ == with_player(
                    old(self)@,
                    client_id,
                    PlayerModel { world: Some(*world), status: Status::GAMING, ..p },
                )
            },
            !has_player(old(self)@.players, client_id) ==> !r && final(self)@ == old(self)@,
            game_wf(old(self)@) ==> game_wf(final(self)@),
    {
        proof {
            if game_wf(self@) && has_player(self@.players, client_id) {
                let p = player_of(self@, client_id);
                assert(is_first_player(
                    self@.players,
                    client_id,
                    player_at(self@.players, client_id),
                ));
                lemma_player_change_keeps_wf(
                    self@,
                    client_id,
                    PlayerModel { world: Some(*world), status: Status::GAMING, ..p },
                );
            }
        }
        match self.get_mut_player(client_id) {
            Some(player) => {
                let starts: bool = player.status != Status::GAMING;
                player.world = Some(*world);
                player.status = Status::GAMING;
                starts
            },
            None => false,
        }
    }

    /// Whether the players have agreed on the kind of game.
    pub fn is_configured(&self) -> (r: bool)
        ensures
            r == (self.config is Some),
    {
        self.config.is_some()
    }

    /// The kind of a game that has been agreed on.
    pub fn get_gmtype(&self) -> (r: Type)
        requires
            self.config is Some,
        ensures
            r == self.config->0.gmtype,
    {
        self.config.unwrap().gmtype
    }
}

} // verus!
