//! All games of the server.

use vstd::prelude::*;

use crate::client::ClientID;
use crate::game::{
    game_wf, has_player, player_of, with_player, Game, GameModel,
};
use crate::player::{Player};

verus! {

/// The games of the server by their ids, in the order in which they were
/// opened.
#[derive(Debug)]
pub struct Games {
    pub entries: Vec<(u32, Game)>,
}

/// Games, as values.
pub open spec fn game_models(entries: Seq<(u32, Game)>) -> Seq<(u32, GameModel)> {
    entries.map_values(|e: (u32, Game)| (e.0, e.1@))
}

impl View for Games {
    type V = Seq<(u32, GameModel)>;

    open spec fn view(&self) -> Seq<(u32, GameModel)> {
        game_models(self.entries@)
    }
}

/// What holds of the games of a server: each is well-formed and has an id of
/// its own.
pub open spec fn games_wf(games: Seq<(u32, GameModel)>) -> bool {
    &&& forall|i: int| 0 <= i < games.len() ==> game_wf((#[trigger] games[i]).1)
    &&& forall|i: int, j: int|
        #![trigger games[i], games[j]]
        0 <= i < j < games.len() ==> games[i].0 != games[j].0
}

/// Whether the first game with a player over the connection `client_id`
/// stands at `i`.
pub open spec fn is_first_game(
    games: Seq<(u32, GameModel)>,
    client_id: ClientID,
    i: int,
) -> bool {
    &&& 0 <= i < games.len()
    &&& has_player(games[i].1.players, client_id)
    &&& forall|j: int| 0 <= j < i ==> !has_player((#[trigger] games[j]).1.players, client_id)
}

/// Whether some game has a player over the connection `client_id`.
pub open spec fn has_game(games: Seq<(u32, GameModel)>, client_id: ClientID) -> bool {
    exists|i: int| is_first_game(games, client_id, i)
}

/// Where the first game with a player over the connection `client_id` stands.
pub open spec fn game_at(games: Seq<(u32, GameModel)>, client_id: ClientID) -> int {
    choose|i: int| is_first_game(games, client_id, i)
}

/// The first game with a player over the connection `client_id`.
pub open spec fn game_of(games: Seq<(u32, GameModel)>, client_id: ClientID) -> GameModel {
    games[game_at(games, client_id)].1
}

/// The games with another first game for the connection `client_id`.
pub open spec fn with_game(
    games: Seq<(u32, GameModel)>,
    client_id: ClientID,
    g: GameModel,
) -> Seq<(u32, GameModel)> {
    let i = game_at(games, client_id);
    games.update(i, (games[i].0, g))
}

/// Whether the game with the id `id` stands at `i`.
pub open spec fn is_game_with_id(games: Seq<(u32, GameModel)>, id: u32, i: int) -> bool {
    &&& 0 <= i < games.len()
    &&& games[i].0 == id
    &&& forall|j: int| 0 <= j < i ==> (#[trigger] games[j]).0 != id
}

/// Whether a game has the id `id`.
pub open spec fn has_game_with_id(games: Seq<(u32, GameModel)>, id: u32) -> bool {
    exists|i: int| is_game_with_id(games, id, i)
}

/// Where the game with the id `id` stands.
pub open spec fn game_with_id_at(games: Seq<(u32, GameModel)>, id: u32) -> int {
    choose|i: int| is_game_with_id(games, id, i)
}

/// The game with the id `id`.
pub open spec fn game_with_id(games: Seq<(u32, GameModel)>, id: u32) -> GameModel {
    games[game_with_id_at(games, id)].1
}

/// The games after one was opened under `id`.
pub open spec fn games_with(games: Seq<(u32, GameModel)>, id: u32, g: GameModel) -> Seq<
    (u32, GameModel),
> {
    if has_game_with_id(games, id) {
        games.update(game_with_id_at(games, id), (id, g))
    } else {
        games.push((id, g))
    }
}

/// A game is found where it is first.
pub proof fn lemma_first_game(games: Seq<(u32, GameModel)>, client_id: ClientID, i: int)
    requires
        is_first_game(games, client_id, i),
    ensures
        has_game(games, client_id),
        game_at(games, client_id) == i,
{
    let k = game_at(games, client_id);
    assert(is_first_game(games, client_id, k));
    if k < i {
        assert(has_player(games[k].1.players, client_id));
    } else if i < k {
        assert(has_player(games[i].1.players, client_id));
    }
}

/// A game is found by its id where it is first.
pub proof fn lemma_game_with_id(games: Seq<(u32, GameModel)>, id: u32, i: int)
    requires
        is_game_with_id(games, id, i),
    ensures
        has_game_with_id(games, id),
        game_with_id_at(games, id) == i,
{
    let k = game_with_id_at(games, id);
    assert(is_game_with_id(games, id, k));
    if k < i {
        assert(games[k].0 == id);
    } else if i < k {
        assert(games[i].0 == id);
    }
}

/// Putting a game in its own place changes nothing.
pub proof fn lemma_same_game(games: Seq<(u32, GameModel)>, client_id: ClientID)
    requires
        has_game(games, client_id),
    ensures
        with_game(games, client_id, game_of(games, client_id)) == games,
{
    assert(is_first_game(games, client_id, game_at(games, client_id)));
    assert(with_game(games, client_id, game_of(games, client_id)) =~= games);
}

/// A game that changes and keeps its player over the connection `client_id`
/// is still the first one with such a player.
pub proof fn lemma_game_change_keeps_place(
    games: Seq<(u32, GameModel)>,
    client_id: ClientID,
    g: GameModel,
)
    requires
        has_game(games, client_id),
        has_player(g.players, client_id),
    ensures
        has_game(with_game(games, client_id, g), client_id),
        game_at(with_game(games, client_id, g), client_id) == game_at(games, client_id),
        game_of(with_game(games, client_id, g), client_id) == g,
{
    let i = game_at(games, client_id);
    assert(is_first_game(games, client_id, i));
    let after = with_game(games, client_id, g);
    assert forall|j: int| 0 <= j < i implies !has_player(
        (#[trigger] after[j]).1.players,
        client_id,
    ) by {
        assert(after[j] == games[j]);
    }
    lemma_first_game(after, client_id, i);
}

/// The games stay well-formed when one of them changes and stays so.
pub proof fn lemma_game_change_keeps_wf(
    games: Seq<(u32, GameModel)>,
    client_id: ClientID,
    g: GameModel,
)
    requires
        games_wf(games),
        has_game(games, client_id),
        game_wf(g),
    ensures
        games_wf(with_game(games, client_id, g)),
{
    let i = game_at(games, client_id);
    assert(is_first_game(games, client_id, i));
    let after = with_game(games, client_id, g);
    assert forall|k: int| 0 <= k < after.len() implies game_wf((#[trigger] after[k]).1) by {
        if k != i {
            assert(after[k] == games[k]);
        }
    }
    assert forall|a: int, b: int|
        #![trigger after[a], after[b]]
        0 <= a < b < after.len() implies after[a].0 != after[b].0 by {
        assert(after[a].0 == games[a].0);
        assert(after[b].0 == games[b].0);
    }
}

/// What a change of the game of `client_id` to `g` comes to: the game is found
/// in its place, the games stay well-formed, and a change to what the game
/// already was is none.
pub proof fn lemma_game_step(games: Seq<(u32, GameModel)>, client_id: ClientID, g: GameModel)
    requires
        games_wf(games),
        has_game(games, client_id),
        game_wf(g),
        has_player(g.players, client_id),
    ensures
        game_wf(game_of(games, client_id)),
        has_player(game_of(games, client_id).players, client_id),
        has_game(with_game(games, client_id, g), client_id),
        game_of(with_game(games, client_id, g), client_id) == g,
        games_wf(with_game(games, client_id, g)),
        g == game_of(games, client_id) ==> with_game(games, client_id, g) == games,
{
    assert(is_first_game(games, client_id, game_at(games, client_id)));
    lemma_game_change_keeps_place(games, client_id, g);
    lemma_game_change_keeps_wf(games, client_id, g);
    lemma_same_game(games, client_id);
}

/// The game of `client_id` is well-formed and has a player over it.
pub proof fn lemma_game_of(games: Seq<(u32, GameModel)>, client_id: ClientID)
    requires
        games_wf(games),
        has_game(games, client_id),
    ensures
        game_wf(game_of(games, client_id)),
        has_player(game_of(games, client_id).players, client_id),
        0 <= game_at(games, client_id) < games.len(),
{
    assert(is_first_game(games, client_id, game_at(games, client_id)));
}

/// A game is found over the connection of each of its players.
pub proof fn lemma_some_game(games: Seq<(u32, GameModel)>, i: int, client_id: ClientID)
    requires
        0 <= i < games.len(),
        has_player(games[i].1.players, client_id),
    ensures
        has_game(games, client_id),
    decreases i,
{
    if forall|j: int| 0 <= j < i ==> !has_player((#[trigger] games[j]).1.players, client_id) {
        assert(is_first_game(games, client_id, i));
    } else {
        let j = choose|j: int|
            0 <= j < i && has_player((#[trigger] games[j]).1.players, client_id);
        lemma_some_game(games, j, client_id);
    }
}

impl Games {
    /// No games.
    pub fn new() -> (g: Games)
        ensures
            g@ == Seq::<(u32, GameModel)>::empty(),
            games_wf(g@),
    {
        let g = Games { entries: Vec::new() };
        assert(g@ =~= Seq::empty());
        g
    }

    /// Where the first game with a player over the connection `client_id`
    /// stands.
    pub fn find_game(&self, client_id: ClientID) -> (r: Option<usize>)
        ensures
            match r {
                Some(i) => is_first_game(self@, client_id, i as int) && has_game(self@, client_id)
                    && i == game_at(self@, client_id),
                None => !has_game(self@, client_id),
            },
    {
        let mut i: usize = 0;
        while i < self.entries.len()
            invariant
                0 <= i <= self.entries@.len(),
                forall|j: int|
                    0 <= j < i ==> !has_player((#[trigger] self@[j]).1.players, client_id),
            decreases self.entries@.len() - i,
        {
            assert(self@[i as int].1 == self.entries@[i as int].1@);
            if self.entries[i].1.find_player(client_id).is_some() {
                proof {
                    lemma_first_game(self@, client_id, i as int);
                }
                return Some(i);
            }
            i = i + 1;
        }
        None
    }

    fn find_id(&self, id: u32) -> (r: Option<usize>)
        ensures
            match r {
                Some(i) => is_game_with_id(self@, id, i as int) && has_game_with_id(self@, id) && i
                    == game_with_id_at(self@, id),
                None => !has_game_with_id(self@, id),
            },
    {
        let mut i: usize = 0;
        while i < self.entries.len()
            invariant
                0 <= i <= self.entries@.len(),
                forall|j: int| 0 <= j < i ==> (#[trigger] self@[j]).0 != id,
            decreases self.entries@.len() - i,
        {
            assert(self@[i as int].0 == self.entries@[i as int].0);
            if self.entries[i].0 == id {
                proof {
                    lemma_game_with_id(self@, id, i as int);
                }
                return Some(i);
            }
            i = i + 1;
        }
        None
    }

    /// The first game with a player over the connection `client_id`.
    pub fn get_game_by_client_id(&self, client_id: ClientID) -> (r: Option<&Game>)
        ensures
            match r {
                Some(g) => has_game(self@, client_id) && g@ == game_of(self@, client_id),
                None => !has_game(self@, client_id),
            },
    {
        match self.find_game(client_id) {
            Some(i) => Some(&self.entries[i].1),
            None => None,
        }
    }

    /// The first game with a player over the connection `client_id`, to be
    /// changed.
    pub fn get_mut_game_by_client_id(&mut self, client_id: ClientID) -> (r: Option<&mut Game>)
        ensures
            match r {
                Some(g) => has_game(old(self)@, client_id) && g@ == game_of(old(self)@, client_id)
                    && final(self)@ == with_game(old(self)@, client_id, final(g)@),
                None => !has_game(old(self)@, client_id) && *final(self) == *old(self),
            },
    {
        match self.find_game(client_id) {
            Some(i) => {
                let g = &mut self.entries[i].1;
                Some(g)
            },
            None => None,
        }
    }

    /// The game with the id `id`.
    pub fn get(&self, id: &u32) -> (r: Option<&Game>)
        ensures
            match r {
                Some(g) => has_game_with_id(self@, *id) && g@ == game_with_id(self@, *id),
                None => !has_game_with_id(self@, *id),
            },
    {
        match self.find_id(*id) {
            Some(i) => Some(&self.entries[i].1),
            None => None,
        }
    }

    /// The game with the id `id`, to be changed.
    pub fn get_mut(&mut self, id: &u32) -> (r: Option<&mut Game>)
        ensures
            match r {
                Some(g) => {
                    let i = game_with_id_at(old(self)@, *id);
                    &&& has_game_with_id(old(self)@, *id)
                    &&& g@ == game_with_id(old(self)@, *id)
                    &&& final(self)@ == old(self)@.update(i, (*id, final(g)@))
                },
                None => !has_game_with_id(old(self)@, *id) && final(self)@ == old(self)@,
            },
    {
        match self.find_id(*id) {
            Some(i) => {
                let g = &mut self.entries[i].1;
                Some(g)
            },
            None => None,
        }
    }

    /// The game with the id `game_id`, to be changed.
    pub fn get_mut_game_by_id(&mut self, game_id: u32) -> (r: Option<&mut Game>)
        ensures
            match r {
                Some(g) => {
                    let i = game_with_id_at(old(self)@, game_id);
                    &&& has_game_with_id(old(self)@, game_id)
                    &&& g@ == game_with_id(old(self)@, game_id)
                    &&& final(self)@ == old(self)@.update(i, (game_id, final(g)@))
                },
                None => !has_game_with_id(old(self)@, game_id) && final(self)@ == old(self)@,
            },
    {
        self.get_mut(&game_id)
    }

    /// The first player over the connection `client_id` in the first game that
    /// has one, to be changed.
    pub fn get_mut_player_by_client_id(&mut self, client_id: ClientID) -> (r: Option<&mut Player>)
        ensures
            match r {
                Some(p) => {
                    let g = game_of(old(self)@, client_id);
                    &&& has_game(old(self)@, client_id)
                    &&& p@ == player_of(g, client_id)
                    &&& final(self)@ == with_game(
                        old(self)@,
                        client_id,
                        with_player(g, client_id, final(p)@),
                    )
                },
                None => !has_game(old(self)@, client_id) && final(self)@ == old(self)@,
            },
    {
        proof {
            if has_game(self@, client_id) {
                assert(is_first_game(self@, client_id, game_at(self@, client_id)));
            }
        }
        match self.get_mut_game_by_client_id(client_id) {
            Some(g) => g.get_mut_player(client_id),
            None => None,
        }
    }

    /// Opens `game` under `id`; a game that had the id is closed and comes
    /// back.
    pub fn insert(&mut self, id: u32, game: Game) -> (r: Option<Game>)
        ensures
            has_game_with_id(old(self)@, id) ==> {
                let i = game_with_id_at(old(self)@, id);
                &&& r matches Some(g) && g@ == old(self)@[i].1
                &&& final(self)@ == old(self)@.update(i, (id, game@))
            },
            !has_game_with_id(old(self)@, id) ==> r is None && final(self)@ == old(self)@.push(
                (id, game@),
            ),
            games_wf(old(self)@) && game_wf(game@) ==> games_wf(final(self)@),
            final(self)@ == games_with(old(self)@, id, game@),
    {
        let ghost before = self@;
        match self.find_id(id) {
            Some(i) => {
                let mut entry: (u32, Game) = (id, game);
                let ghost g = game@;
                std::mem::swap(&mut entry, &mut self.entries[i]);
                assert(self@ =~= before.update(i as int, (id, g)));
                proof {
                    if games_wf(before) && game_wf(g) {
                        assert forall|k: int| 0 <= k < self@.len() implies game_wf(
                            (#[trigger] self@[k]).1,
                        ) by {
                            if k != i {
                                assert(self@[k] == before[k]);
                            }
                        }
                        assert forall|a: int, b: int|
                            #![trigger self@[a], self@[b]]
                            0 <= a < b < self@.len() implies self@[a].0 != self@[b].0 by {
                            assert(self@[a].0 == before[a].0);
                            assert(self@[b].0 == before[b].0);
                        }
                    }
                }
                Some(entry.1)
            },
            None => {
                let ghost g = game@;
                self.entries.push((id, game));
                assert(self@ =~= before.push((id, g)));
                proof {
                    assert forall|j: int| 0 <= j < before.len() implies (#[trigger] before[j]).0
                        != id by {
                        if before[j].0 == id {
                            lemma_some_game_with_id(before, id, j);
                        }
                    }
                    if games_wf(before) && game_wf(g) {
                        assert forall|k: int| 0 <= k < self@.len() implies game_wf(
                            (#[trigger] self@[k]).1,
                        ) by {
                            if k < before.len() {
                                assert(self@[k] == before[k]);
                            }
                        }
                        assert forall|a: int, b: int|
                            #![trigger self@[a], self@[b]]
                            0 <= a < b < self@.len() implies self@[a].0 != self@[b].0 by {
                            assert(self@[a] == before[a]);
                            if b < before.len() {
                                assert(self@[b] == before[b]);
                            }
                        }
                    }
                }
                None
            },
        }
    }

    /// Closes the game at `i`.
    pub fn remove_at(&mut self, i: usize)
        requires
            i < old(self)@.len(),
        ensures
            final(self)@ == old(self)@.remove(i as int),
            games_wf(old(self)@) ==> games_wf(final(self)@),
    {
        let ghost before = self@;
        self.entries.remove(i);
        assert(self@ =~= before.remove(i as int));
        proof {
            if games_wf(before) {
                let at = |k: int| if k < i { k } else { k + 1 };
                assert forall|k: int| 0 <= k < self@.len() implies game_wf(
                    (#[trigger] self@[k]).1,
                ) by {
                    assert(self@[k] == before[at(k)]);
                }
                assert forall|a: int, b: int|
                    #![trigger self@[a], self@[b]]
                    0 <= a < b < self@.len() implies self@[a].0 != self@[b].0 by {
                    assert(self@[a] == before[at(a)]);
                    assert(self@[b] == before[at(b)]);
                }
            }
        }
    }
}

/// A game with the id `id` is found, wherever it stands.
pub proof fn lemma_some_game_with_id(games: Seq<(u32, GameModel)>, id: u32, j: int)
    requires
        0 <= j < games.len(),
        games[j].0 == id,
    ensures
        has_game_with_id(games, id),
    decreases j,
{
    if forall|k: int| 0 <= k < j ==> (#[trigger] games[k]).0 != id {
        assert(is_game_with_id(games, id, j));
    } else {
        let k = choose|k: int| 0 <= k < j && (#[trigger] games[k]).0 == id;
        lemma_some_game_with_id(games, id, k);
    }
}

} // verus!
