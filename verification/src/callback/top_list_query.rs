//! `TOP_LIST_QUERY`: who is rated best in games of a kind.

use vstd::prelude::*;
use vstd::seq_lib::{to_multiset_build, to_multiset_insert};

use crate::bytes::{copy_range, push_tail, push_u32, u32_bytes};
use crate::client::ClientID;
use crate::game::{
    game_wf, type_code, Game, GameModel, RemovedModel,
};
use crate::games::games_wf;
use crate::player::{rating_in, Body, PlayerModel, BODY_SIZE};
use crate::protocol::{answer_of, packet_of, Packet};
use crate::server::{Server};

use super::{OnUpdateError, OnUpdateOk};

verus! {

/// How many players a list names at most.
pub const TOP_LIST_LIMIT: usize = 10;

/// Why there is no list.
#[derive(Clone, Copy, Debug, PartialEq, Eq, Structural)]
pub enum TopListQueryError {
    /// The request does not say for which kind of games.
    ModeEmpty,
}

/// A player in the list: its name, and its rating as the bits of a
/// single-precision number.
pub struct TopEntry {
    pub name: Vec<u8>,
    pub rating: u32,
}

/// The value of a [`TopEntry`].
#[verifier::ext_equal]
pub struct EntryModel {
    pub name: Seq<u8>,
    pub rating: u32,
}

impl View for TopEntry {
    type V = EntryModel;

    open spec fn view(&self) -> EntryModel {
        EntryModel { name: self.name@, rating: self.rating }
    }
}

/// Entries, as values.
pub open spec fn entry_models(entries: Seq<TopEntry>) -> Seq<EntryModel> {
    entries.map_values(|e: TopEntry| e@)
}

/// Whether bits stand for a number.
pub open spec fn is_number(bits: u32) -> bool {
    bits % 0x8000_0000 <= 0x7F80_0000
}

/// An integer by which the numbers that bits stand for are ordered: the
/// highest bit is the sign, and of two numbers of one sign the one further
/// from zero has the larger bits.
pub open spec fn rating_key(bits: u32) -> int {
    if bits < 0x8000_0000 {
        bits as int
    } else {
        0x8000_0000 - bits
    }
}

/// Whether `a` is a higher rating than `b`. What is no number is neither
/// higher nor lower than anything.
pub open spec fn rated_above(a: u32, b: u32) -> bool {
    is_number(a) && is_number(b) && rating_key(a) > rating_key(b)
}

/// The place that an entry rises to from the end of a list: before those rated
/// lower.
pub open spec fn rise(list: Seq<EntryModel>, e: EntryModel) -> int
    decreases list.len(),
{
    if list.len() > 0 && rated_above(e.rating, list.last().rating) {
        rise(list.drop_last(), e)
    } else {
        list.len() as int
    }
}

/// Entries by their ratings, the highest first; those rated alike stay in
/// their order.
pub open spec fn ranked(entries: Seq<EntryModel>) -> Seq<EntryModel>
    decreases entries.len(),
{
    if entries.len() == 0 {
        Seq::empty()
    } else {
        let list = ranked(entries.drop_last());
        list.insert(rise(list, entries.last()), entries.last())
    }
}

/// The entry of a player, if it has a name and a record.
pub open spec fn player_entry(p: PlayerModel) -> Option<EntryModel> {
    match (p.auth, p.body) {
        (Some(auth), Some(body)) => Some(EntryModel { name: auth.name, rating: rating_in(body) }),
        _ => None,
    }
}

/// The entry of a player who has left, if its record is complete.
pub open spec fn removed_entry(p: RemovedModel) -> Option<EntryModel> {
    if p.body.len() < BODY_SIZE {
        None
    } else {
        Some(EntryModel { name: p.name, rating: rating_in(p.body) })
    }
}

/// The entries of a game: first of its players, then of those who have left.
pub open spec fn game_entries(g: GameModel) -> Seq<EntryModel> {
    g.players.filter_map(|p: PlayerModel| player_entry(p)) + g.removed_players.filter_map(
        |p: RemovedModel| removed_entry(p),
    )
}

/// Whether a game is of the kind that `mode` stands for.
pub open spec fn of_mode(g: GameModel, mode: u8) -> bool {
    g.config matches Some(config) && type_code(config.gmtype) == mode
}

/// The entries of all games of the kind that `mode` stands for.
pub open spec fn mode_entries(games: Seq<(u32, GameModel)>, mode: u8) -> Seq<EntryModel>
    decreases games.len(),
{
    if games.len() == 0 {
        Seq::empty()
    } else {
        let before = mode_entries(games.drop_last(), mode);
        if of_mode(games.last().1, mode) {
            before + game_entries(games.last().1)
        } else {
            before
        }
    }
}

/// The highest rated of the entries, as many as a list can name.
pub open spec fn top_of(entries: Seq<EntryModel>) -> Seq<EntryModel> {
    let list = ranked(entries);
    if list.len() <= TOP_LIST_LIMIT {
        list
    } else {
        list.take(TOP_LIST_LIMIT as int)
    }
}

/// A list on the wire: of each player the name, then the rating.
pub open spec fn list_bytes(list: Seq<EntryModel>) -> Seq<u8>
    decreases list.len(),
{
    if list.len() == 0 {
        Seq::empty()
    } else {
        list_bytes(list.drop_last()) + list.last().name + u32_bytes(list.last().rating)
    }
}

/// The payload of the answer: the kind of games, how many players the list
/// names, the list.
pub open spec fn top_list_bytes(games: Seq<(u32, GameModel)>, mode: u8) -> Seq<u8> {
    let list = top_of(mode_entries(games, mode));
    seq![mode, list.len() as u8] + list_bytes(list)
}

/// An entry rises to a place in the list or to its end, and only past those
/// rated lower.
pub proof fn lemma_rise(list: Seq<EntryModel>, e: EntryModel)
    ensures
        0 <= rise(list, e) <= list.len(),
        forall|i: int|
            rise(list, e) <= i < list.len() ==> rated_above(
                e.rating,
                (#[trigger] list[i]).rating,
            ),
        rise(list, e) > 0 ==> !rated_above(e.rating, list[rise(list, e) - 1].rating),
    decreases list.len(),
{
    if list.len() > 0 && rated_above(e.rating, list.last().rating) {
        lemma_rise(list.drop_last(), e);
        assert forall|i: int| rise(list, e) <= i < list.len() implies rated_above(
            e.rating,
            (#[trigger] list[i]).rating,
        ) by {
            if i < list.len() - 1 {
                assert(list[i] == list.drop_last()[i]);
            }
        }
    }
}

/// Ranking drops no entry and makes none up.
pub proof fn lemma_ranked_keeps_entries(entries: Seq<EntryModel>)
    ensures
        ranked(entries).len() == entries.len(),
        ranked(entries).to_multiset() == entries.to_multiset(),
    decreases entries.len(),
{
    if entries.len() > 0 {
        let (rest, e) = (entries.drop_last(), entries.last());
        lemma_ranked_keeps_entries(rest);
        lemma_rise(ranked(rest), e);
        to_multiset_insert(ranked(rest), rise(ranked(rest), e), e);
        to_multiset_build(rest, e);
        assert(entries =~= rest.push(e));
    } else {
        assert(ranked(entries) =~= entries);
    }
}

/// Where all ratings are numbers, the ranking goes from high to low.
pub proof fn lemma_ranked_descends(entries: Seq<EntryModel>)
    requires
        forall|i: int| 0 <= i < entries.len() ==> is_number((#[trigger] entries[i]).rating),
    ensures
        forall|i: int|
            0 <= i < ranked(entries).len() ==> is_number((#[trigger] ranked(entries)[i]).rating),
        forall|i: int, j: int|
            #![trigger ranked(entries)[i], ranked(entries)[j]]
            0 <= i <= j < ranked(entries).len() ==> rating_key(ranked(entries)[i].rating)
                >= rating_key(ranked(entries)[j].rating),
    decreases entries.len(),
{
    if entries.len() > 0 {
        let (rest, e) = (entries.drop_last(), entries.last());
        assert forall|i: int| 0 <= i < rest.len() implies is_number(
            (#[trigger] rest[i]).rating,
        ) by {
            assert(rest[i] == entries[i]);
        }
        assert(is_number(entries[entries.len() - 1].rating));
        lemma_ranked_descends(rest);
        let list = ranked(rest);
        let k = rise(list, e);
        lemma_rise(list, e);
        let after = ranked(entries);
        assert(after == list.insert(k, e));
        assert forall|i: int| 0 <= i < after.len() implies is_number(
            (#[trigger] after[i]).rating,
        ) by {
            if i < k {
                assert(after[i] == list[i]);
            } else if i > k {
                assert(after[i] == list[i - 1]);
            }
        }
        assert forall|i: int, j: int|
            #![trigger after[i], after[j]]
            0 <= i <= j < after.len() implies rating_key(after[i].rating) >= rating_key(
            after[j].rating,
        ) by {
            if i < k {
                assert(after[i] == list[i]);
                assert(rating_key(list[i].rating) >= rating_key(list[k - 1].rating));
            } else if i > k {
                assert(after[i] == list[i - 1]);
            }
            if j < k {
                assert(after[j] == list[j]);
            } else if j > k {
                assert(after[j] == list[j - 1]);
            }
        }
    }
}

/// Players with the same rating are ranked in the order in which they were
/// found.
pub proof fn lemma_ranked_is_stable(entries: Seq<EntryModel>, key: int)
    requires
        forall|i: int| 0 <= i < entries.len() ==> is_number((#[trigger] entries[i]).rating),
    ensures
        ranked(entries).filter(|e: EntryModel| rating_key(e.rating) == key) == entries.filter(
            |e: EntryModel| rating_key(e.rating) == key,
        ),
    decreases entries.len(),
{
    let alike = |e: EntryModel| rating_key(e.rating) == key;
    if entries.len() == 0 {
        assert(ranked(entries) =~= entries);
    } else {
        let (rest, e) = (entries.drop_last(), entries.last());
        assert forall|i: int| 0 <= i < rest.len() implies is_number(
            (#[trigger] rest[i]).rating,
        ) by {
            assert(rest[i] == entries[i]);
        }
        lemma_ranked_is_stable(rest, key);
        let list = ranked(rest);
        let k = rise(list, e);
        lemma_rise(list, e);
        let (high, low) = (list.take(k), list.skip(k));
        assert(list =~= high + low);
        assert(list.insert(k, e) =~= high + seq![e] + low);
        Seq::filter_distributes_over_add(high, low, alike);
        Seq::filter_distributes_over_add(high + seq![e], low, alike);
        Seq::filter_distributes_over_add(high, seq![e], alike);
        let none = Seq::<EntryModel>::empty();
        none.lemma_filter_push(e, alike);
        assert(none.filter(alike) =~= none) by {
            reveal(Seq::filter);
        }
        assert(seq![e] =~= none.push(e));
        if alike(e) {
            assert forall|i: int| 0 <= i < low.len() implies !alike(#[trigger] low[i]) by {
                assert(low[i] == list[k + i]);
            }
            low.lemma_all_neg_filter_empty(alike);
            assert(low.filter(alike) =~= Seq::empty());
        }
        assert(entries.filter(alike) == if alike(e) {
            rest.filter(alike).push(e)
        } else {
            rest.filter(alike)
        }) by {
            reveal(Seq::filter);
        }
        assert(ranked(entries).filter(alike) =~= entries.filter(alike));
    }
}

/// Where not everybody is named the list is full, and nobody who is left out is
/// rated above anybody who is named.
pub proof fn lemma_top_is_best(entries: Seq<EntryModel>, i: int, j: int)
    requires
        forall|k: int| 0 <= k < entries.len() ==> is_number((#[trigger] entries[k]).rating),
        0 <= i < top_of(entries).len() <= j < entries.len(),
    ensures
        top_of(entries).len() == TOP_LIST_LIMIT,
        top_of(entries)[i] == ranked(entries)[i],
        !rated_above(ranked(entries)[j].rating, top_of(entries)[i].rating),
{
    lemma_ranked_keeps_entries(entries);
    lemma_ranked_descends(entries);
    assert(rating_key(ranked(entries)[i].rating) >= rating_key(ranked(entries)[j].rating));
}

/// Whoever is listed plays or has played in a game of the kind asked for.
pub proof fn lemma_entries_are_of_mode(
    games: Seq<(u32, GameModel)>,
    mode: u8,
    e: EntryModel,
)
    requires
        mode_entries(games, mode).contains(e),
    ensures
        exists|i: int|
            0 <= i < games.len() && of_mode((#[trigger] games[i]).1, mode) && game_entries(
                games[i].1,
            ).contains(e),
    decreases games.len(),
{
    let entries = mode_entries(games, mode);
    if games.len() > 0 {
        let last = games.last().1;
        let before = mode_entries(games.drop_last(), mode);
        let k = choose|k: int| 0 <= k < entries.len() && entries[k] == e;
        if k < before.len() {
            assert(before[k] == e);
            assert(before.contains(e));
            lemma_entries_are_of_mode(games.drop_last(), mode, e);
            let i = choose|i: int|
                0 <= i < games.len() - 1 && of_mode((#[trigger] games.drop_last()[i]).1, mode)
                    && game_entries(games.drop_last()[i].1).contains(e);
            assert(games[i] == games.drop_last()[i]);
        } else {
            assert(game_entries(last)[k - before.len()] == e);
            assert(games[games.len() - 1].1 == last);
        }
    }
}

/// Whether `bits` stand for a number.
fn holds_number(bits: u32) -> (r: bool)
    ensures
        r == is_number(bits),
{
    bits % 0x8000_0000 <= 0x7F80_0000
}

/// Whether `a` is a higher rating than `b`.
pub fn is_rated_above(a: u32, b: u32) -> (r: bool)
    ensures
        r == rated_above(a, b),
{
    let key_a: i64 = if a < 0x8000_0000 {
        a as i64
    } else {
        0x8000_0000 - a as i64
    };
    let key_b: i64 = if b < 0x8000_0000 {
        b as i64
    } else {
        0x8000_0000 - b as i64
    };
    holds_number(a) && holds_number(b) && key_a > key_b
}

/// Puts `entry` in its place in a list.
fn insert_ranked(list: &mut Vec<TopEntry>, entry: TopEntry)
    ensures
        entry_models(final(list)@) == entry_models(old(list)@).insert(
            rise(entry_models(old(list)@), entry@),
            entry@,
        ),
{
    let ghost before = entry_models(list@);
    let ghost e = entry@;
    let mut at: usize = list.len();
    assert(before.take(at as int) =~= before);
    while at > 0 && is_rated_above(entry.rating, list[at - 1].rating)
        invariant
            0 <= at <= list@.len(),
            before == entry_models(list@),
            e == entry@,
            rise(before.take(at as int), e) == rise(before, e),
        decreases at,
    {
        proof {
            assert(before.take(at as int).drop_last() =~= before.take(at - 1));
            assert(before.take(at as int).last() == list@[at - 1]@);
        }
        at = at - 1;
    }
    proof {
        if at > 0 {
            assert(before.take(at as int).last() == list@[at - 1]@);
        }
        lemma_rise(before, e);
    }
    list.insert(at, entry);
    assert(entry_models(list@) =~= before.insert(at as int, e));
}

/// The entries by their ratings, the highest first.
pub fn rank_entries(entries: Vec<TopEntry>) -> (list: Vec<TopEntry>)
    ensures
        entry_models(list@) == ranked(entry_models(entries@)),
{
    let ghost all = entry_models(entries@);
    let mut list: Vec<TopEntry> = Vec::new();
    let mut i: usize = 0;
    assert(entry_models(list@) =~= ranked(all.take(0)));
    while i < entries.len()
        invariant
            0 <= i <= entries@.len(),
            all == entry_models(entries@),
            entry_models(list@) == ranked(all.take(i as int)),
        decreases entries@.len() - i,
    {
        let e = &entries[i];
        let name = copy_range(&e.name, 0, e.name.len());
        assert(name@ =~= e.name@);
        insert_ranked(&mut list, TopEntry { name, rating: e.rating });
        i = i + 1;
        proof {
            assert(all.take(i as int).drop_last() =~= all.take(i - 1));
            assert(all.take(i as int).last() == entries@[i - 1]@);
        }
    }
    assert(all.take(i as int) =~= all);
    list
}

/// Appends the entries of `game`.
fn push_entries(entries: &mut Vec<TopEntry>, game: &Game)
    requires
        game_wf(game@),
    ensures
        entry_models(final(entries)@) == entry_models(old(entries)@) + game_entries(game@),
{
    let ghost first = entry_models(entries@);
    let ghost players = game@.players;
    let ghost removed = game@.removed_players;
    let ghost entry = |p: PlayerModel| player_entry(p);
    let ghost left = |p: RemovedModel| removed_entry(p);
    let mut i: usize = 0;
    assert(entry_models(entries@) =~= first + players.take(0).filter_map(entry));
    while i < game.players.len()
        invariant
            0 <= i <= game.players@.len(),
            game_wf(game@),
            players == game@.players,
            entry == (|p: PlayerModel| player_entry(p)),
            entry_models(entries@) == first + players.take(i as int).filter_map(entry),
        decreases game.players@.len() - i,
    {
        let player = &game.players[i];
        let ghost so_far = entries@;
        assert(players[i as int] == player@);
        if let (Some(auth), Some(body)) = (&player.auth, &player.body) {
            let name = copy_range(&auth.name, 0, auth.name.len());
            assert(name@ =~= auth.name@);
            entries.push(TopEntry { name, rating: body.rating_bits() });
            assert(entry_models(entries@) =~= entry_models(so_far).push(entries@.last()@));
        }
        proof {
            players.lemma_filter_map_take_succ(entry, i as int);
            assert(entry_models(entries@) =~= first + players.take(i + 1).filter_map(entry));
        }
        i = i + 1;
    }
    assert(players.take(i as int) =~= players);
    let ghost current = first + players.filter_map(entry);
    let mut i: usize = 0;
    assert(entry_models(entries@) =~= current + removed.take(0).filter_map(left));
    while i < game.removed_players.len()
        invariant
            0 <= i <= game.removed_players@.len(),
            removed == game@.removed_players,
            left == (|p: RemovedModel| removed_entry(p)),
            entry_models(entries@) == current + removed.take(i as int).filter_map(left),
        decreases game.removed_players@.len() - i,
    {
        let player = &game.removed_players[i];
        let ghost so_far = entries@;
        assert(removed[i as int] == player@);
        if let Some(body) = Body::from_slice(&player.body) {
            let name = copy_range(&player.name, 0, player.name.len());
            assert(name@ =~= player.name@);
            entries.push(TopEntry { name, rating: body.rating_bits() });
            assert(entry_models(entries@) =~= entry_models(so_far).push(entries@.last()@));
        }
        proof {
            removed.lemma_filter_map_take_succ(left, i as int);
            assert(entry_models(entries@) =~= current + removed.take(i + 1).filter_map(left));
        }
        i = i + 1;
    }
    assert(removed.take(i as int) =~= removed);
    assert(entry_models(entries@) =~= first + game_entries(game@));
}

/// Appends the first `n` entries of `list` as they are sent.
fn push_list(data: &mut Vec<u8>, list: &Vec<TopEntry>, n: usize)
    requires
        n <= list@.len(),
    ensures
        final(data)@ == old(data)@ + list_bytes(entry_models(list@).take(n as int)),
{
    let ghost all = entry_models(list@);
    let mut i: usize = 0;
    assert(data@ =~= old(data)@ + list_bytes(all.take(0)));
    while i < n
        invariant
            0 <= i <= n <= list@.len(),
            all == entry_models(list@),
            data@ == old(data)@ + list_bytes(all.take(i as int)),
        decreases n - i,
    {
        let e = &list[i];
        push_tail(data, &e.name, 0);
        push_u32(data, e.rating);
        i = i + 1;
        proof {
            let next = all.take(i as int);
            assert(e.name@.skip(0) =~= e.name@);
            assert(next.drop_last() =~= all.take(i - 1));
            assert(next.last() == e@);
            assert(data@ =~= old(data)@ + list_bytes(next));
        }
    }
}

impl Server {
    /// The entries of all games of the kind that `mode` stands for.
    fn entries_of_mode(&self, mode: u8) -> (entries: Vec<TopEntry>)
        requires
            self.wf(),
        ensures
            entry_models(entries@) == mode_entries(self@.games, mode),
    {
        let ghost games = self@.games;
        let mut entries: Vec<TopEntry> = Vec::new();
        let mut i: usize = 0;
        assert(entry_models(entries@) =~= mode_entries(games.take(0), mode));
        while i < self.games.entries.len()
            invariant
                0 <= i <= self.games.entries@.len(),
                games == self@.games,
                games_wf(games),
                entry_models(entries@) == mode_entries(games.take(i as int), mode),
            decreases self.games.entries@.len() - i,
        {
            let game = &self.games.entries[i].1;
            proof {
                assert(games[i as int].1 == game@);
                assert(games.take(i + 1).drop_last() =~= games.take(i as int));
                assert(games.take(i + 1).last().1 == game@);
            }
            if game.is_configured() && game.get_gmtype().code() == mode {
                push_entries(&mut entries, game);
            }
            i = i + 1;
        }
        assert(games.take(i as int) =~= games);
        entries
    }

    /// Answers `TOP_LIST_QUERY`.
    pub fn top_list_query(&mut self, packet: &Packet, _client_id: ClientID) -> (r: Result<
        OnUpdateOk,
        OnUpdateError,
    >)
        requires
            old(self).wf(),
        ensures
            *final(self) == *old(self),
            packet.data@.len() == 0 ==> r == Err::<OnUpdateOk, OnUpdateError>(
                OnUpdateError::TopListQueryError(TopListQueryError::ModeEmpty),
            ),
            packet.data@.len() > 0 ==> match answer_of(packet.action) {
                Some(action) => r matches Ok(OnUpdateOk::Response(p)) && p@ == packet_of(
                    action,
                    top_list_bytes(old(self)@.games, packet.data@[0]),
                ),
                None => r == Err::<OnUpdateOk, OnUpdateError>(
                    OnUpdateError::ResponsePacketTypeNotExist(packet.action),
                ),
            },
    {
        if packet.data.len() == 0 {
            return Err(OnUpdateError::TopListQueryError(TopListQueryError::ModeEmpty));
        }
        let mp_game: u8 = packet.data[0];
        let entries = self.entries_of_mode(mp_game);
        let list = rank_entries(entries);
        let n: usize = if list.len() <= TOP_LIST_LIMIT {
            list.len()
        } else {
            TOP_LIST_LIMIT
        };
        let mut data: Vec<u8> = Vec::new();
        data.push(mp_game);
        data.push(n as u8);
        push_list(&mut data, &list, n);
        proof {
            let named = entry_models(list@).take(n as int);
            assert(named =~= top_of(mode_entries(self@.games, mp_game)));
            assert(data@ =~= top_list_bytes(self@.games, mp_game));
        }
        match packet.create_answer(data) {
            Some(answer) => Ok(OnUpdateOk::Response(answer)),
            None => Err(OnUpdateError::ResponsePacketTypeNotExist(packet.action)),
        }
    }
}

} // verus!
