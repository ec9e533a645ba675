//! What becomes of connections, and of the players behind them.

use vstd::prelude::*;

use crate::bytes::{le_i16, le_u32, u32_bytes};
use crate::callback::close_socket::close_effect;
use crate::callback::on_update::{
    client_at, has_client, is_first_client, lemma_first_client, verdict as request_verdict,
};
use crate::callback::restore_connection::{
    bound_at, can_come_back, is_bound_at, lemma_bound_at, restore_answer, restore_effect,
};
use crate::client::{ClientID, ClientModel, Connection, ConnectionModel, MpscData, NewsModel};
use crate::disconnect::{closed_each, expired, expired_ids, is_expired, marked};
use crate::events::{after_input, Event, Flow, Input};
use crate::frames::{
    frame_len, frames, has_frame, kept, leftover, lemma_leftover_bounds, malformed,
};
use crate::game::{
    attached, bind_taken, game_wf, is_next_number, lemma_player_change_keeps_place,
    lemma_player_change_keeps_wf, lemma_player_of, next_number, player_at, player_of, with_player,
    GameModel, RemovedModel,
};
use crate::games::{
    game_at, game_of, game_with_id, game_with_id_at, games_wf, games_with, has_game,
    has_game_with_id, is_game_with_id, lemma_game_of, lemma_game_step, lemma_game_with_id,
    lemma_some_game_with_id,
};
use crate::handshake::{verdict, welcome_bytes, AuthError, Verdict};
use crate::player::{fresh_player, Bind, PlayerModel, Status};
use crate::protocol::{action_of, packet_of, Action, PacketModel};
use crate::server::{next_game_id, uptime_at, ServerModel};
use crate::session::{
    after_happening, HappeningModel, NextModel, PhaseModel, SessionModel, TurnModel, AUTH_FAILED,
};
use crate::vanject::Pos;

use super::hearing::only_its_game;
use super::wire::lemma_read_is_written;
use super::worlds::but_for_player;

verus! {

/// Whether the payload of a return names the player `k` of the game that stands
/// at `j`: the id of the game in four bytes, then the player's number.
pub open spec fn names_player(s: ServerModel, data: Seq<u8>, j: int, k: int) -> bool {
    &&& 0 <= j < s.games.len() && 0 <= k < s.games[j].1.players.len()
    &&& u32_bytes(s.games[j].0) == data.take(4)
    &&& s.games[j].1.players[k].bind == Some(Bind { id: data[4] })
}

/// The id that four bytes are written for is the one that is read from them.
proof fn lemma_game_named(id: u32, data: Seq<u8>)
    requires
        data.len() >= 4,
    ensures
        u32_bytes(id) == data.take(4) <==> id == le_u32(data, 0) as u32,
{
    lemma_read_is_written(data, 0);
    assert(data.take(4) =~= data.subrange(0, 4));
    if u32_bytes(id) == data.take(4) {
        let b = u32_bytes(id);
        assert(b[0] == data[0] && b[1] == data[1] && b[2] == data[2] && b[3] == data[3]);
    }
}

/// A player whom a return names comes back: it is reached over the new
/// connection, need not be given up, and is otherwise as it was; no other
/// player and no other game changes. The clients of its old connection are
/// forgotten, all others stay.
pub proof fn lemma_who_is_named_comes_back(
    s: ServerModel,
    data: Seq<u8>,
    client_id: ClientID,
    j: int,
    k: int,
)
    requires
        games_wf(s.games),
        data.len() == 5,
        names_player(s, data, j, k),
    ensures
        can_come_back(s, data),
        ({
            let g = s.games[j].1;
            let after = restore_effect(s, data, client_id);
            let h = after.games[j].1;
            let old_id = g.players[k].client_id;
            &&& after.conf == s.conf && after.games_id_uniq == s.games_id_uniq
            &&& after.games.len() == s.games.len() && after.games[j].0 == s.games[j].0
            &&& forall|i: int| 0 <= i < s.games.len() && i != j ==> #[trigger] after.games[i]
                == s.games[i]
            &&& but_for_player(g, h, k) && h.worlds == g.worlds && h.vanjects == g.vanjects
            &&& h.players[k] == (PlayerModel { client_id, disconnected_until: None, ..g.players[k] })
            &&& old_id == client_id ==> after.clients == s.clients
            &&& old_id != client_id ==> after.clients == s.clients.filter(
                |c: ClientModel| c.id != old_id,
            )
        }),
{
    let game_id = le_u32(data, 0) as u32;
    let g = s.games[j].1;
    lemma_game_named(s.games[j].0, data);
    assert(is_game_with_id(s.games, game_id, j)) by {
        assert forall|i: int| 0 <= i < j implies (#[trigger] s.games[i]).0 != game_id by {
            assert(s.games[i].0 != s.games[j].0);
        }
    }
    lemma_game_with_id(s.games, game_id, j);
    assert(game_wf(g));
    assert(is_bound_at(g.players, data[4], k)) by {
        assert forall|i: int| 0 <= i < k implies (#[trigger] g.players[i]).bind != Some(
            Bind { id: data[4] },
        ) by {
            if g.players[i].bind == Some(Bind { id: data[4] }) {
                assert(g.players[i].bind != g.players[k].bind);
            }
        }
    }
    lemma_bound_at(g.players, data[4], k);
}

/// Where a return names nobody, nobody comes back.
pub proof fn lemma_nobody_else_comes_back(s: ServerModel, data: Seq<u8>)
    requires
        data.len() == 5,
        can_come_back(s, data),
    ensures
        exists|j: int, k: int| names_player(s, data, j, k),
{
    let game_id = le_u32(data, 0) as u32;
    let j = game_with_id_at(s.games, game_id);
    assert(is_game_with_id(s.games, game_id, j));
    let g = game_with_id(s.games, game_id);
    let k = bound_at(g.players, data[4]);
    assert(is_bound_at(g.players, data[4], k));
    lemma_game_named(s.games[j].0, data);
    assert(names_player(s, data, j, k));
}

/// Who comes back is told 1, who does not is told 0.
pub proof fn lemma_answer_to_a_return(restored: bool)
    ensures
        restore_answer(restored) == packet_of(
            Action::RESTORE_CONNECTION_RESPONSE,
            seq![if restored { 1u8 } else { 0u8 }],
        ),
{
}

/// A player who leaves for good is gone; the others stay in their order. Its
/// name and record are remembered, if it has both. A game whose last player
/// leaves is closed. No client is forgotten, and no other game changes.
pub proof fn lemma_close(s: ServerModel, client_id: ClientID)
    requires
        games_wf(s.games),
        has_game(s.games, client_id),
    ensures
        ({
            let i = game_at(s.games, client_id);
            let g = s.games[i].1;
            let k = player_at(g.players, client_id);
            let p = g.players[k];
            let after = close_effect(s, client_id);
            let h = after.games[i].1;
            &&& after.clients == s.clients && after.conf == s.conf && after.games_id_uniq
                == s.games_id_uniq
            &&& g.players.len() == 1 ==> after.games == s.games.remove(i)
            &&& g.players.len() != 1 ==> {
                &&& only_its_game(s, after, client_id)
                &&& h.id == g.id && h.config == g.config && h.worlds == g.worlds && h.vanjects
                    == g.vanjects
                &&& h.players == g.players.remove(k)
                &&& p.auth is Some && p.body is Some ==> h.removed_players
                    == g.removed_players.push(
                    RemovedModel { name: p.auth->0.name, body: p.body->0 },
                )
                &&& p.auth is None || p.body is None ==> h.removed_players == g.removed_players
            }
        }),
{
    lemma_game_of(s.games, client_id);
    lemma_player_of(game_of(s.games, client_id).players, client_id);
}

/// A player whose connection breaks has a minute to come back, and is otherwise
/// as it was; nothing else changes. Where nobody plays over the connection
/// nothing changes at all.
pub proof fn lemma_connection_breaks(s: ServerModel, client_id: ClientID, now_ms: u64)
    requires
        games_wf(s.games),
        now_ms <= u64::MAX - 60_000,
    ensures
        !has_game(s.games, client_id) ==> marked(s, client_id, now_ms) == s,
        has_game(s.games, client_id) ==> {
            let g = game_of(s.games, client_id);
            let k = player_at(g.players, client_id);
            let after = marked(s, client_id, now_ms);
            let h = game_of(after.games, client_id);
            &&& only_its_game(s, after, client_id) && after.clients == s.clients
            &&& but_for_player(g, h, k) && h.worlds == g.worlds && h.vanjects == g.vanjects
            &&& h.players[k] == (PlayerModel {
                disconnected_until: Some((now_ms + 60_000) as u64),
                ..g.players[k]
            })
            &&& forall|later: u64|
                #![trigger is_expired(h.players[k], later)]
                is_expired(h.players[k], later) <==> later >= now_ms + 60_000
        },
{
    if has_game(s.games, client_id) {
        let g = game_of(s.games, client_id);
        lemma_game_of(s.games, client_id);
        lemma_player_of(g.players, client_id);
        let p = PlayerModel {
            disconnected_until: Some((now_ms + 60_000) as u64),
            ..player_of(g, client_id)
        };
        lemma_player_change_keeps_wf(g, client_id, p);
        lemma_player_change_keeps_place(g, client_id, p);
        lemma_game_step(s.games, client_id, with_player(g, client_id, p));
    }
}

/// Only who was marked as away can be given up, and only from its deadline on.
pub proof fn lemma_who_is_given_up(p: PlayerModel, now_ms: u64)
    ensures
        is_expired(p, now_ms) <==> p.disconnected_until is Some && p.disconnected_until->0
            <= now_ms,
{
}

/// Giving up players forgets no client.
pub proof fn lemma_giving_up_forgets_no_client(s: ServerModel, ids: Seq<ClientID>)
    ensures
        closed_each(s, ids).clients == s.clients,
        closed_each(s, ids).conf == s.conf,
        closed_each(s, ids).games_id_uniq == s.games_id_uniq,
    decreases ids.len(),
{
    if ids.len() > 0 {
        lemma_giving_up_forgets_no_client(s, ids.drop_last());
    }
}

/// What an input comes to: a tick gives up those who have been away for too
/// long; a new client comes last among the clients; the server stops when it is
/// told to, or when nothing can reach it any more; a broken connection loses
/// its clients, and its player has some time to come back; a request is
/// answered.
pub proof fn lemma_inputs(s: ServerModel, input: Input, now_ms: u64)
    ensures
        ({
            let (after, flow) = after_input(s, input, now_ms);
            match input {
                Input::Tick => after == expired(s, now_ms) && after.clients == s.clients && flow
                    == Flow::Continue,
                Input::Listener(Some(Event::Add(client))) => {
                    &&& after.games == s.games && after.conf == s.conf && after.games_id_uniq
                        == s.games_id_uniq
                    &&& after.clients.len() == s.clients.len() + 1
                    &&& after.clients.last() == client@
                    &&& forall|i: int| 0 <= i < s.clients.len() ==> #[trigger] after.clients[i]
                        == s.clients[i]
                    &&& flow == Flow::Continue
                },
                Input::Listener(Some(Event::Halt)) => after == s && flow == Flow::Stop,
                Input::Listener(None) => after == s && flow == Flow::Stop,
                Input::Clients(None) => after == s && flow == Flow::Stop,
                Input::Clients(Some(MpscData(id, Connection::Disconnected))) => {
                    &&& after.games == marked(s, id, now_ms).games
                    &&& after.conf == s.conf && after.games_id_uniq == s.games_id_uniq
                    &&& after.clients == s.clients.filter(|c: ClientModel| c.id != id)
                    &&& flow == Flow::Continue
                },
                Input::Clients(Some(MpscData(id, Connection::Updated(packet)))) => {
                    let (answered, handled) = request_verdict(s, packet, id);
                    after == answered && flow == Flow::Answered(handled)
                },
                Input::Clients(Some(MpscData(id, connection))) => flow == Flow::Continue,
            }
        }),
{
    lemma_giving_up_forgets_no_client(s, expired_ids(s.games, now_ms));
}

/// The state of a connection is that of its first client, which takes over the
/// version of the protocol once it is let in; no other client changes.
pub proof fn lemma_state_of_a_connection(s: ServerModel, id: ClientID, connection: Connection)
    requires
        connection is Connected || connection is Authenticated,
    ensures
        ({
            let input = Input::Clients(Some(MpscData(id, connection)));
            let after = after_input(s, input, 0).0;
            &&& after.games == s.games && after.conf == s.conf && after.games_id_uniq
                == s.games_id_uniq
            &&& after.clients.len() == s.clients.len()
            &&& forall|i: int|
                0 <= i < s.clients.len() ==> {
                    let c = s.clients[i];
                    let first = c.id == id && forall|j: int|
                        0 <= j < i ==> (#[trigger] s.clients[j]).id != id;
                    (#[trigger] after.clients[i]) == if !first {
                        c
                    } else if connection is Authenticated {
                        ClientModel { connection, protocol: connection->Authenticated_0, ..c }
                    } else {
                        ClientModel { connection, ..c }
                    }
                }
        }),
{
    let input = Input::Clients(Some(MpscData(id, connection)));
    let after = after_input(s, input, 0).0;
    if has_client(s.clients, id) {
        assert(is_first_client(s.clients, id, client_at(s.clients, id)));
    }
    assert forall|i: int| 0 <= i < s.clients.len() implies ({
        let c = s.clients[i];
        let first = c.id == id && forall|j: int|
            0 <= j < i ==> (#[trigger] s.clients[j]).id != id;
        (#[trigger] after.clients[i]) == if !first {
            c
        } else if connection is Authenticated {
            ClientModel { connection, protocol: connection->Authenticated_0, ..c }
        } else {
            ClientModel { connection, ..c }
        }
    }) by {
        let first = s.clients[i].id == id && forall|j: int|
            0 <= j < i ==> (#[trigger] s.clients[j]).id != id;
        if first {
            assert(is_first_client(s.clients, id, i));
            lemma_first_client(s.clients, id, i);
        }
    }
}

/// A player that has only just come in has no number, no name, no record and no
/// world, and does not play.
pub proof fn lemma_new_player(client_id: ClientID)
    ensures
        ({
            let p = fresh_player(client_id);
            &&& p.client_id == client_id
            &&& p.bind is None && p.auth is None && p.body is None && p.world is None
            &&& p.status == Status::INITIAL && p.disconnected_until is None
            &&& p.pos == (Pos { x: 0, y: 0 }) && p.screen_y_half_size == 0
        }),
{
}

/// A player who comes into a game gets the smallest number from 1 to 63 that no
/// player of the game has, and comes last; it keeps all else, and nothing else
/// of the game changes. Only a game in which all these numbers are taken takes
/// in nobody.
pub proof fn lemma_coming_in(g: GameModel, p: PlayerModel)
    ensures
        ({
            let taken = |id: u8|
                exists|i: int|
                    0 <= i < g.players.len() && (#[trigger] g.players[i]).bind == Some(Bind { id });
            let h = attached(g, p);
            match next_number(g.players) {
                Some(id) => {
                    &&& 1 <= id <= 63 && !taken(id)
                    &&& forall|k: u8| 1 <= k < id ==> #[trigger] taken(k)
                    &&& h.id == g.id && h.config == g.config && h.removed_players
                        == g.removed_players && h.worlds == g.worlds && h.vanjects == g.vanjects
                    &&& h.players.len() == g.players.len() + 1
                    &&& forall|i: int| 0 <= i < g.players.len() ==> #[trigger] h.players[i]
                        == g.players[i]
                    &&& h.players.last() == (PlayerModel { bind: Some(Bind { id }), ..p })
                },
                None => h == g && forall|k: u8| 1 <= k <= 63 ==> #[trigger] taken(k),
            }
        }),
{
    let taken = |id: u8|
        exists|i: int|
            0 <= i < g.players.len() && (#[trigger] g.players[i]).bind == Some(Bind { id });
    match next_number(g.players) {
        Some(id) => {
            assert(is_next_number(g.players, id));
            assert forall|k: u8| 1 <= k < id implies #[trigger] taken(k) by {
                assert(bind_taken(g.players, k));
            }
        },
        None => {
            assert forall|k: u8| 1 <= k <= 63 implies #[trigger] taken(k) by {
                lemma_all_taken(g.players, k);
            }
        },
    }
}

proof fn lemma_all_taken(players: Seq<PlayerModel>, k: u8)
    requires
        next_number(players) is None,
        1 <= k <= 63,
    ensures
        bind_taken(players, k),
    decreases k,
{
    assert(!is_next_number(players, k));
    if !bind_taken(players, k) {
        let j = choose|j: u8| 1 <= j < k && !#[trigger] bind_taken(players, j);
        lemma_all_taken(players, j);
    }
}

/// A game that is opened is found under its id; no other game changes, and a new
/// one comes last.
pub proof fn lemma_opening_a_game(games: Seq<(u32, GameModel)>, id: u32, g: GameModel)
    ensures
        ({
            let after = games_with(games, id, g);
            let known = exists|j: int| 0 <= j < games.len() && (#[trigger] games[j]).0 == id;
            &&& has_game_with_id(after, id) && game_with_id(after, id) == g
            &&& known ==> after.len() == games.len()
            &&& !known ==> after.len() == games.len() + 1 && after.last() == (id, g)
            &&& forall|i: int|
                0 <= i < games.len() && !(games[i].0 == id && forall|j: int|
                    0 <= j < i ==> (#[trigger] games[j]).0 != id) ==> #[trigger] after[i]
                    == games[i]
        }),
{
    let after = games_with(games, id, g);
    let known = exists|j: int| 0 <= j < games.len() && (#[trigger] games[j]).0 == id;
    if known {
        let j = choose|j: int| 0 <= j < games.len() && (#[trigger] games[j]).0 == id;
        lemma_some_game_with_id(games, id, j);
        let k = game_with_id_at(games, id);
        assert(is_game_with_id(games, id, k));
        assert forall|i: int| 0 <= i < k implies (#[trigger] after[i]).0 != id by {
            assert(after[i] == games[i]);
        }
        lemma_game_with_id(after, id, k);
    } else {
        if has_game_with_id(games, id) {
            let k = game_with_id_at(games, id);
            assert(is_game_with_id(games, id, k));
            assert(games[k].0 == id);
        }
        let k = games.len() as int;
        assert forall|i: int| 0 <= i < k implies (#[trigger] after[i]).0 != id by {
            assert(after[i] == games[i]);
        }
        lemma_game_with_id(after, id, k);
    }
}

/// Game ids are never given twice: the next one is one higher than the last.
/// Clients are told the time in 32 bits, which start again when it no longer
/// fits.
pub proof fn lemma_ids_and_times(s: ServerModel, now_ms: u64)
    requires
        s.games_id_uniq < u32::MAX,
    ensures
        next_game_id(s) == s.games_id_uniq + 1,
        now_ms < 0x1_0000_0000 ==> uptime_at(now_ms) == now_ms,
        now_ms >= 0x1_0000_0000 ==> uptime_at(now_ms) == uptime_at((now_ms - 0x1_0000_0000) as u64),
{
}

/// Whether a turn sends a client away: it is sent the farewell, the connection
/// is closed, and the server hears that the client is gone, and nothing else.
pub open spec fn sent_away(
    id: ClientID,
    error: AuthError,
    r: (SessionModel, TurnModel),
) -> bool {
    &&& r.0.id == id && r.0.phase == PhaseModel::Closed
    &&& r.1.next == NextModel::TurnAway(error, AUTH_FAILED@)
    &&& r.1.news == seq![NewsModel { id, connection: ConnectionModel::Disconnected }]
    &&& !r.1.malformed
}

/// What comes of a greeting. A client is sent away when its connection breaks or
/// closes, when it greets wrongly, and when it cannot be answered; it is let in
/// once it was answered, and the server hears of it only then.
pub proof fn lemma_greeting(id: ClientID, received: Seq<u8>, bytes: Seq<u8>, protocol: u8)
    ensures
        ({
            let m = SessionModel { id, phase: PhaseModel::Greeting(received) };
            let read = after_happening(m, HappeningModel::Read(Some(bytes)));
            let replying = SessionModel { id, phase: PhaseModel::Replying(protocol) };
            let sent = after_happening(replying, HappeningModel::ReplySent(true));
            let unsent = after_happening(replying, HappeningModel::ReplySent(false));
            &&& sent_away(
                id,
                AuthError::Connection,
                after_happening(m, HappeningModel::Read(None)),
            )
            &&& bytes.len() == 0 ==> sent_away(id, AuthError::ClosedByClient, read)
            &&& bytes.len() > 0 ==> match verdict(received + bytes) {
                Verdict::NeedMore => {
                    &&& read.0 == (SessionModel {
                        id,
                        phase: PhaseModel::Greeting(received + bytes),
                    })
                    &&& read.1.next == NextModel::Read && read.1.news.len() == 0
                },
                Verdict::Welcome(v) => {
                    &&& read.0 == (SessionModel { id, phase: PhaseModel::Replying(v) })
                    &&& read.1.next == NextModel::Reply(welcome_bytes(v)) && read.1.news.len() == 0
                },
                Verdict::Refused(e) => sent_away(id, e, read),
            }
            &&& sent.0 == (SessionModel { id, phase: PhaseModel::Open(Seq::empty()) })
            &&& sent.1.next == NextModel::Read
            &&& sent.1.news == seq![
                NewsModel { id, connection: ConnectionModel::Authenticated(protocol) },
            ]
            &&& sent_away(id, AuthError::HsResponse, unsent)
        }),
{
}

/// What comes of a read from a client that is in: the server hears of each
/// packet that is complete, in order; bytes that are no complete packet are
/// kept. When the connection breaks or closes, the server hears that the client
/// is gone.
pub proof fn lemma_reading(id: ClientID, held: Seq<u8>, bytes: Seq<u8>)
    ensures
        ({
            let m = SessionModel { id, phase: PhaseModel::Open(held) };
            let d = held + bytes;
            let (next, turn) = after_happening(m, HappeningModel::Read(Some(bytes)));
            let (end, last) = after_happening(m, HappeningModel::Read(None));
            let gone = seq![NewsModel { id, connection: ConnectionModel::Disconnected }];
            &&& end == (SessionModel { id, phase: PhaseModel::Closed })
            &&& last.next == NextModel::Close && last.news == gone
            &&& bytes.len() == 0 ==> next == end && turn == last
            &&& bytes.len() > 0 ==> {
                &&& next == (SessionModel { id, phase: PhaseModel::Open(kept(d)) })
                &&& turn.next == NextModel::Read && turn.malformed == malformed(d)
                &&& turn.news.len() == frames(d).len()
                &&& forall|i: int|
                    0 <= i < frames(d).len() ==> #[trigger] turn.news[i] == (NewsModel {
                        id,
                        connection: ConnectionModel::Updated(frames(d)[i]),
                    })
            }
        }),
{
}

/// How bytes are cut: two bytes, the lower one first, say how many bytes follow,
/// which are an action and its payload. Where fewer have come in, nothing is cut
/// off yet; where the two bytes say less than one or more than the buffer can
/// take, the bytes are malformed.
pub proof fn lemma_how_bytes_are_cut(d: Seq<u8>)
    requires
        d.len() >= 2,
    ensures
        ({
            let n = d[0] + 0x100 * d[1];
            &&& !(1 <= n <= 32765) ==> malformed(d) && leftover(d) == d && frames(d).len() == 0
            &&& 1 <= n <= 32765 && d.len() < n + 2 ==> !malformed(d) && leftover(d) == d
                && frames(d).len() == 0
            &&& 1 <= n <= 32765 && d.len() >= n + 2 ==> {
                &&& frames(d) == seq![
                    PacketModel {
                        action: action_of(d[2]),
                        real_action: d[2],
                        data: d.subrange(3, n + 2),
                    },
                ] + frames(d.skip(n + 2))
                &&& leftover(d) == leftover(d.skip(n + 2))
                &&& malformed(d) == malformed(d.skip(n + 2))
            }
        }),
{
    let n = d[0] + 0x100 * d[1];
    if 1 <= n <= 32765 {
        assert(le_i16(d, 0) == n);
        if d.len() >= n + 2 {
            assert(d.take(n + 2).skip(3) =~= d.subrange(3, n + 2));
        }
    }
}

/// Fewer than two bytes are kept as they are.
pub proof fn lemma_a_byte_is_kept(d: Seq<u8>)
    requires
        d.len() < 2,
    ensures
        frames(d).len() == 0,
        kept(d) == d,
        !malformed(d),
{
}

/// What is kept of bytes is their end, as long as they are well-formed, and
/// else as many bytes from their start.
pub proof fn lemma_what_is_kept(d: Seq<u8>)
    ensures
        kept(d).len() == leftover(d).len() <= d.len(),
        !malformed(d) ==> kept(d) == d.skip(d.len() - leftover(d).len()),
        malformed(d) ==> kept(d) == d.take(leftover(d).len() as int),
    decreases d.len(),
{
    lemma_leftover_bounds(d);
    lemma_leftover_is_the_end(d);
}

proof fn lemma_leftover_is_the_end(d: Seq<u8>)
    ensures
        leftover(d).len() <= d.len(),
        leftover(d) == d.skip(d.len() - leftover(d).len()),
    decreases d.len(),
{
    if has_frame(d) {
        let n = frame_len(d);
        let rest = d.skip(n);
        lemma_leftover_is_the_end(rest);
        assert(leftover(d) =~= d.skip(d.len() - leftover(d).len()));
    } else {
        assert(d =~= d.skip(0));
    }
}

} // verus!
