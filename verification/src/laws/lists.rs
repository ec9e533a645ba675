//! Who is named in the list of the best rated players.

use vstd::prelude::*;

use crate::bytes::u32_bytes;
use crate::callback::top_list_query::{
    game_entries, is_number, lemma_ranked_descends, lemma_ranked_keeps_entries, list_bytes,
    mode_entries, player_entry,
    rated_above, ranked, rating_key, removed_entry, top_list_bytes, top_of, EntryModel,
};
use crate::game::{game_wf, GameModel, RemovedModel, Type};
use crate::games::games_wf;
use crate::player::{player_wf, rating_in, PlayerModel};

use super::wire::lemma_rating_is_in_the_record;

verus! {

/// Whether a game has been agreed on and is of the kind that a byte stands for.
pub open spec fn of_kind(g: GameModel, mode: u8) -> bool {
    &&& g.config is Some
    &&& mode == match g.config->0.gmtype {
        Type::VAN_WAR => 0u8,
        Type::MECHOSOMA => 1u8,
        Type::PASSEMBLOSS => 2u8,
        Type::HUNTAGE => 3u8,
    }
}

/// Whether an entry names somebody with this name and this record: the rating
/// is what the ninth to the twelfth byte of the record say.
pub open spec fn names(e: EntryModel, name: Seq<u8>, record: Seq<u8>) -> bool {
    e.name == name && u32_bytes(e.rating) == record.subrange(8, 12)
}

/// Every player of a game of the kind asked for who has a name and a record is
/// among the entries, and among them once they are ranked.
pub proof fn lemma_every_player_counts(
    games: Seq<(u32, GameModel)>,
    mode: u8,
    i: int,
    k: int,
) -> (e: EntryModel)
    requires
        games_wf(games),
        0 <= i < games.len(),
        of_kind(games[i].1, mode),
        0 <= k < games[i].1.players.len(),
        games[i].1.players[k].auth is Some,
        games[i].1.players[k].body is Some,
    ensures
        names(e, games[i].1.players[k].auth->0.name, games[i].1.players[k].body->0),
        mode_entries(games, mode).contains(e),
        ranked(mode_entries(games, mode)).contains(e),
{
    let g = games[i].1;
    let p = g.players[k];
    assert(game_wf(g));
    assert(player_wf(p));
    lemma_rating_is_in_the_record(p.body->0);
    let e = EntryModel { name: p.auth->0.name, rating: rating_in(p.body->0) };
    let pick = |p: PlayerModel| player_entry(p);
    lemma_picked_is_there(g.players, pick, k, e);
    let current = g.players.filter_map(pick);
    let n = choose|n: int| 0 <= n < current.len() && current[n] == e;
    assert(game_entries(g)[n] == e);
    lemma_entries_of_each_game(games, mode, i, e);
    lemma_ranked_still_there(mode_entries(games, mode), e);
    e
}

/// Every player who has left a game of the kind asked for, and whose record is
/// complete, is among the entries, and among them once they are ranked.
pub proof fn lemma_every_former_player_counts(
    games: Seq<(u32, GameModel)>,
    mode: u8,
    i: int,
    k: int,
) -> (e: EntryModel)
    requires
        0 <= i < games.len(),
        of_kind(games[i].1, mode),
        0 <= k < games[i].1.removed_players.len(),
        games[i].1.removed_players[k].body.len() >= 41,
    ensures
        names(e, games[i].1.removed_players[k].name, games[i].1.removed_players[k].body),
        mode_entries(games, mode).contains(e),
        ranked(mode_entries(games, mode)).contains(e),
{
    let g = games[i].1;
    let p = g.removed_players[k];
    lemma_rating_is_in_the_record(p.body);
    let e = EntryModel { name: p.name, rating: rating_in(p.body) };
    let pick = |p: RemovedModel| removed_entry(p);
    lemma_picked_is_there(g.removed_players, pick, k, e);
    let former = g.removed_players.filter_map(pick);
    let n = choose|n: int| 0 <= n < former.len() && former[n] == e;
    let current = g.players.filter_map(|p: PlayerModel| player_entry(p));
    assert(game_entries(g)[current.len() + n] == e);
    lemma_entries_of_each_game(games, mode, i, e);
    lemma_ranked_still_there(mode_entries(games, mode), e);
    e
}

/// What is picked from one of several is among what is picked from all.
proof fn lemma_picked_is_there<A>(
    all: Seq<A>,
    pick: spec_fn(A) -> Option<EntryModel>,
    k: int,
    e: EntryModel,
)
    requires
        0 <= k < all.len(),
        pick(all[k]) == Some(e),
    ensures
        all.filter_map(pick).contains(e),
    decreases all.len(),
{
    let picked = all.filter_map(pick);
    if k == all.len() - 1 {
        assert(picked[picked.len() - 1] == e);
    } else {
        let before = all.drop_last().filter_map(pick);
        lemma_picked_is_there(all.drop_last(), pick, k, e);
        let n = choose|n: int| 0 <= n < before.len() && before[n] == e;
        assert(picked[n] == e);
    }
}

/// The entries of each game of the kind are among all entries.
proof fn lemma_entries_of_each_game(
    games: Seq<(u32, GameModel)>,
    mode: u8,
    i: int,
    e: EntryModel,
)
    requires
        0 <= i < games.len(),
        of_kind(games[i].1, mode),
        game_entries(games[i].1).contains(e),
    ensures
        mode_entries(games, mode).contains(e),
    decreases games.len(),
{
    let all = mode_entries(games, mode);
    let before = mode_entries(games.drop_last(), mode);
    if i == games.len() - 1 {
        let here = game_entries(games[i].1);
        let n = choose|n: int| 0 <= n < here.len() && here[n] == e;
        assert(all[before.len() + n] == e);
    } else {
        assert(games.drop_last()[i] == games[i]);
        lemma_entries_of_each_game(games.drop_last(), mode, i, e);
        let n = choose|n: int| 0 <= n < before.len() && before[n] == e;
        assert(all[n] == e);
    }
}

proof fn lemma_ranked_still_there(entries: Seq<EntryModel>, e: EntryModel)
    requires
        entries.contains(e),
    ensures
        ranked(entries).contains(e),
{
    lemma_ranked_keeps_entries(entries);
    entries.to_multiset_ensures();
    ranked(entries).to_multiset_ensures();
    assert(entries.to_multiset().count(e) > 0);
}

/// The entries of players, the first of them first: one of each who has a name
/// and a record.
pub open spec fn listed_players(players: Seq<PlayerModel>) -> Seq<EntryModel>
    decreases players.len(),
{
    if players.len() == 0 {
        Seq::empty()
    } else {
        let rest = listed_players(players.drop_first());
        let p = players[0];
        if p.auth is Some && p.body is Some {
            seq![EntryModel { name: p.auth->0.name, rating: rating_in(p.body->0) }] + rest
        } else {
            rest
        }
    }
}

/// The entries of players who have left, the first of them first: one of each
/// whose record is complete.
pub open spec fn listed_former(players: Seq<RemovedModel>) -> Seq<EntryModel>
    decreases players.len(),
{
    if players.len() == 0 {
        Seq::empty()
    } else {
        let rest = listed_former(players.drop_first());
        let p = players[0];
        if p.body.len() >= 41 {
            seq![EntryModel { name: p.name, rating: rating_in(p.body) }] + rest
        } else {
            rest
        }
    }
}

/// The entries of games, the first of them first: of each of the kind asked for
/// those of its players, and those of the players who have left it.
pub open spec fn listed(games: Seq<(u32, GameModel)>, mode: u8) -> Seq<EntryModel>
    decreases games.len(),
{
    if games.len() == 0 {
        Seq::empty()
    } else {
        let g = games[0].1;
        (if of_kind(g, mode) {
            listed_players(g.players) + listed_former(g.removed_players)
        } else {
            Seq::empty()
        }) + listed(games.drop_first(), mode)
    }
}

proof fn lemma_pick_from_the_front<A>(all: Seq<A>, pick: spec_fn(A) -> Option<EntryModel>)
    requires
        all.len() > 0,
    ensures
        all.filter_map(pick) == (match pick(all[0]) {
            Some(e) => seq![e] + all.drop_first().filter_map(pick),
            None => all.drop_first().filter_map(pick),
        }),
    decreases all.len(),
{
    let rest = all.drop_first();
    if all.len() == 1 {
        assert(all.drop_last() =~= Seq::empty());
        assert(rest =~= Seq::empty());
        assert(all.filter_map(pick) =~= (match pick(all[0]) {
            Some(e) => seq![e] + rest.filter_map(pick),
            None => rest.filter_map(pick),
        }));
    } else {
        lemma_pick_from_the_front(all.drop_last(), pick);
        assert(all.drop_last().drop_first() =~= rest.drop_last());
        assert(all.drop_last()[0] == all[0]);
        assert(rest.last() == all.last());
        assert(all.filter_map(pick) =~= (match pick(all[0]) {
            Some(e) => seq![e] + rest.filter_map(pick),
            None => rest.filter_map(pick),
        }));
    }
}

proof fn lemma_listed_players(players: Seq<PlayerModel>)
    ensures
        players.filter_map(|p: PlayerModel| player_entry(p)) == listed_players(players),
    decreases players.len(),
{
    let pick = |p: PlayerModel| player_entry(p);
    if players.len() > 0 {
        lemma_pick_from_the_front(players, pick);
        lemma_listed_players(players.drop_first());
    }
}

proof fn lemma_listed_former(players: Seq<RemovedModel>)
    ensures
        players.filter_map(|p: RemovedModel| removed_entry(p)) == listed_former(players),
    decreases players.len(),
{
    let pick = |p: RemovedModel| removed_entry(p);
    if players.len() > 0 {
        lemma_pick_from_the_front(players, pick);
        lemma_listed_former(players.drop_first());
    }
}

proof fn lemma_entries_from_the_front(games: Seq<(u32, GameModel)>, mode: u8)
    requires
        games.len() > 0,
    ensures
        mode_entries(games, mode) == mode_entries(games.take(1), mode) + mode_entries(
            games.drop_first(),
            mode,
        ),
    decreases games.len(),
{
    let rest = games.drop_first();
    if games.len() == 1 {
        assert(games.take(1) =~= games);
        assert(mode_entries(games, mode) =~= mode_entries(games.take(1), mode) + mode_entries(
            rest,
            mode,
        ));
    } else {
        lemma_entries_from_the_front(games.drop_last(), mode);
        assert(games.drop_last().take(1) =~= games.take(1));
        assert(games.drop_last().drop_first() =~= rest.drop_last());
        assert(rest.last() == games.last());
        assert(mode_entries(games, mode) =~= mode_entries(games.take(1), mode) + mode_entries(
            rest,
            mode,
        ));
    }
}

/// Each player counts once, and nobody else: the entries that are ranked are
/// those of the games of the kind asked for, in the order of the games, and in
/// each game first of its players, then of those who have left it.
pub proof fn lemma_each_counts_once(games: Seq<(u32, GameModel)>, mode: u8)
    ensures
        mode_entries(games, mode) == listed(games, mode),
    decreases games.len(),
{
    if games.len() > 0 {
        let g = games[0].1;
        lemma_entries_from_the_front(games, mode);
        lemma_each_counts_once(games.drop_first(), mode);
        lemma_listed_players(g.players);
        lemma_listed_former(g.removed_players);
        let one = games.take(1);
        assert(one.last() == games[0]);
        assert(mode_entries(one.drop_last(), mode) =~= Seq::empty());
        assert(mode_entries(one, mode) =~= (if of_kind(g, mode) {
            listed_players(g.players) + listed_former(g.removed_players)
        } else {
            Seq::empty()
        }));
        assert(mode_entries(games, mode) =~= listed(games, mode));
    }
}

/// The payload of the answer: the kind asked for, how many are named, at most
/// ten, and of each the name and the rating, the first of the ranking first.
pub proof fn lemma_what_the_list_says(games: Seq<(u32, GameModel)>, mode: u8)
    ensures
        ({
            let all = ranked(listed(games, mode));
            let n: int = if all.len() <= 10 { all.len() as int } else { 10 };
            let answer = top_list_bytes(games, mode);
            &&& answer.len() >= 2
            &&& answer[0] == mode
            &&& answer[1] == n
            &&& answer.skip(2) == list_bytes(all.take(n))
            &&& all.len() == listed(games, mode).len()
        }),
{
    lemma_each_counts_once(games, mode);
    let all = ranked(listed(games, mode));
    lemma_ranked_keeps_entries(listed(games, mode));
    let list = top_of(listed(games, mode));
    let n: int = if all.len() <= 10 { all.len() as int } else { 10 };
    assert(list =~= all.take(n));
    assert(top_list_bytes(games, mode).skip(2) =~= list_bytes(list));
}

/// A list is written entry by entry: the name as it is, then the four bytes of
/// the rating.
pub proof fn lemma_lists_add_up(list: Seq<EntryModel>, more: Seq<EntryModel>)
    ensures
        list_bytes(list + more) == list_bytes(list) + list_bytes(more),
        list.len() == 1 ==> list_bytes(list) == list[0].name + u32_bytes(list[0].rating),
    decreases more.len(),
{
    if list.len() == 1 {
        assert(list_bytes(list.drop_last()) =~= Seq::<u8>::empty());
        assert(list_bytes(list) =~= list[0].name + u32_bytes(list[0].rating));
    }
    if more.len() == 0 {
        assert(list + more =~= list);
        assert(list_bytes(list + more) =~= list_bytes(list) + list_bytes(more));
    } else {
        lemma_lists_add_up(list, more.drop_last());
        assert((list + more).drop_last() =~= list + more.drop_last());
        assert((list + more).last() == more.last());
        assert(list_bytes(list + more) =~= list_bytes(list) + list_bytes(more));
    }
}

/// How ratings compare: of two numbers that are not negative the one with the
/// larger bits is higher; the highest bit turns the order round; zero is zero
/// with either sign. What has all exponent bits and a fraction is no number,
/// and is rated neither above nor below anything.
pub proof fn lemma_how_ratings_compare(a: u32, b: u32)
    requires
        a < 0x8000_0000,
        b < 0x8000_0000,
    ensures
        ({
            let (minus_a, minus_b) = ((a + 0x8000_0000) as u32, (b + 0x8000_0000) as u32);
            let number = |x: u32| !(x / 0x80_0000 == 255 && x % 0x80_0000 != 0);
            &&& is_number(a) == number(a) && is_number(minus_a) == number(a)
            &&& number(a) && number(b) ==> {
                &&& rated_above(a, b) == (a > b)
                &&& rated_above(minus_a, minus_b) == (a < b)
                &&& rated_above(a, minus_b) == !(a == 0 && b == 0)
                &&& !rated_above(minus_a, b)
            }
            &&& !number(a) ==> !rated_above(a, b) && !rated_above(b, a) && !rated_above(minus_a, b)
                && !rated_above(b, minus_a) && !rated_above(a, minus_b) && !rated_above(
                minus_b,
                a,
            ) && !rated_above(minus_a, minus_b) && !rated_above(minus_b, minus_a)
        }),
{
}

/// Whoever stands before somebody else in the ranking is not rated below, where
/// all ratings are numbers.
pub proof fn lemma_the_best_come_first(entries: Seq<EntryModel>, i: int, j: int)
    requires
        forall|k: int| 0 <= k < entries.len() ==> is_number((#[trigger] entries[k]).rating),
        0 <= i < j < entries.len(),
    ensures
        ranked(entries).len() == entries.len(),
        !rated_above(ranked(entries)[j].rating, ranked(entries)[i].rating),
{
    lemma_ranked_keeps_entries(entries);
    lemma_ranked_descends(entries);
    assert(rating_key(ranked(entries)[i].rating) >= rating_key(ranked(entries)[j].rating));
}

} // verus!
