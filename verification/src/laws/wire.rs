//! What stands where in bytes.

use vstd::prelude::*;

use crate::bytes::{
    i16_bytes, i32_bytes, le_i16, le_i32, le_u32, lemma_u32_bytes_of_read, u32_bytes,
};
use crate::callback::item_transfer::{removed_packet, shown_packet, state_packet};
use crate::callback::total_players_data_query::{player_bytes, roster_bytes, roster_packet};
use crate::client::{after_drop, drop_is_reported, LossyDropLog};
use crate::game::GameModel;
use crate::handshake::{verdict, welcome_bytes, AuthError, Verdict, HS_IN, HS_OUT};
use crate::player::{rating_in, PlayerModel, Status};
use crate::protocol::{code_of, packet_of, wire, Action};
use crate::vanject::{
    created_object, object_bytes, type_of, updated_object, VanjectModel, NID,
};

verus! {

/// Numbers are written with the lowest byte first, negative ones as their
/// complement.
pub proof fn lemma_low_byte_first(v: i32, w: i16, u: u32)
    ensures
        i32_bytes(v).len() == 4,
        i32_bytes(v)[0] + 0x100 * i32_bytes(v)[1] + 0x1_0000 * i32_bytes(v)[2] + 0x100_0000
            * i32_bytes(v)[3] == if v < 0 {
            v + 0x1_0000_0000
        } else {
            v as int
        },
        i16_bytes(w).len() == 2,
        i16_bytes(w)[0] + 0x100 * i16_bytes(w)[1] == if w < 0 {
            w + 0x1_0000
        } else {
            w as int
        },
        u32_bytes(u).len() == 4,
        u32_bytes(u)[0] + 0x100 * u32_bytes(u)[1] + 0x1_0000 * u32_bytes(u)[2] + 0x100_0000
            * u32_bytes(u)[3] == u,
{
}

/// A number that is read from bytes is the one that these bytes are written
/// for.
pub proof fn lemma_read_is_written(s: Seq<u8>, at: int)
    requires
        0 <= at,
    ensures
        at + 4 <= s.len() ==> i32_bytes(le_i32(s, at)) == s.subrange(at, at + 4),
        at + 4 <= s.len() ==> u32_bytes(le_u32(s, at) as u32) == s.subrange(at, at + 4),
        at + 2 <= s.len() ==> i16_bytes(le_i16(s, at)) == s.subrange(at, at + 2),
{
    if at + 4 <= s.len() {
        lemma_u32_bytes_of_read(s, at);
        assert(i32_bytes(le_i32(s, at)) =~= u32_bytes(le_u32(s, at) as u32));
    }
    if at + 2 <= s.len() {
        assert(i16_bytes(le_i16(s, at)) =~= s.subrange(at, at + 2));
    }
}

/// An object that is created is what the payload writes: id, time, position,
/// radius and body, with nothing left out, and nobody's yet.
pub proof fn lemma_created_object_is_the_payload(s: Seq<u8>)
    requires
        s.len() >= 14,
    ensures
        ({
            let v = created_object(s);
            &&& s == i32_bytes(v.id) + i32_bytes(v.time) + i16_bytes(v.pos.x) + i16_bytes(v.pos.y)
                + i16_bytes(v.radius) + v.body
            &&& v.player_bind_id == 0
        }),
{
    let v = created_object(s);
    lemma_read_is_written(s, 0);
    lemma_read_is_written(s, 4);
    lemma_read_is_written(s, 8);
    lemma_read_is_written(s, 10);
    lemma_read_is_written(s, 12);
    assert(s =~= s.subrange(0, 4) + s.subrange(4, 8) + s.subrange(8, 10) + s.subrange(10, 12)
        + s.subrange(12, 14) + s.skip(14));
}

/// An object that is updated takes time, position and body from the payload,
/// with nothing left out, and keeps the rest.
pub proof fn lemma_updated_object_is_the_payload(v: VanjectModel, s: Seq<u8>)
    requires
        s.len() >= 12,
    ensures
        ({
            let u = updated_object(v, s);
            &&& s.skip(4) == i32_bytes(u.time) + i16_bytes(u.pos.x) + i16_bytes(u.pos.y) + u.body
            &&& u.id == v.id && u.radius == v.radius && u.player_bind_id == v.player_bind_id
        }),
{
    let u = updated_object(v, s);
    lemma_read_is_written(s, 4);
    lemma_read_is_written(s, 8);
    lemma_read_is_written(s, 10);
    assert(s.skip(4) =~= s.subrange(4, 8) + s.subrange(8, 10) + s.subrange(10, 12) + s.skip(12));
}

/// What clients are told of an object: its fields one after the other, the
/// owner behind the id.
pub proof fn lemma_object_on_the_wire(v: VanjectModel)
    ensures
        object_bytes(v) == i32_bytes(v.id) + seq![v.player_bind_id] + i32_bytes(v.time) + i16_bytes(
            v.pos.x,
        ) + i16_bytes(v.pos.y) + i16_bytes(v.radius) + v.body,
{
    assert(object_bytes(v) =~= i32_bytes(v.id) + seq![v.player_bind_id] + i32_bytes(v.time)
        + i16_bytes(v.pos.x) + i16_bytes(v.pos.y) + i16_bytes(v.radius) + v.body);
}

/// A client that does not know an object is told of it as an item, in a hold or
/// in a world, or as any other object.
pub proof fn lemma_how_an_object_is_shown(previous_id: i32, v: VanjectModel)
    ensures
        type_of(v.id) == NID::DEVICE ==> {
            &&& shown_packet(v) == packet_of(
                Action::ITEM_STATE,
                seq![1u8, 0u8, 0u8, 0u8, 0u8] + object_bytes(v),
            )
            &&& state_packet(previous_id, v) == packet_of(
                Action::ITEM_STATE,
                seq![1u8] + i32_bytes(previous_id) + object_bytes(v),
            )
        },
        type_of(v.id) == NID::STUFF ==> {
            &&& shown_packet(v) == packet_of(
                Action::ITEM_STATE,
                seq![2u8, 0u8, 0u8, 0u8, 0u8] + object_bytes(v),
            )
            &&& state_packet(previous_id, v) == packet_of(
                Action::ITEM_STATE,
                seq![2u8] + i32_bytes(previous_id) + object_bytes(v),
            )
        },
        type_of(v.id) != NID::DEVICE && type_of(v.id) != NID::STUFF ==> shown_packet(v)
            == packet_of(Action::UPDATE_OBJECT, object_bytes(v)),
{
    if type_of(v.id) == NID::DEVICE {
        assert(shown_packet(v).data =~= seq![1u8, 0u8, 0u8, 0u8, 0u8] + object_bytes(v));
    }
    if type_of(v.id) == NID::STUFF {
        assert(shown_packet(v).data =~= seq![2u8, 0u8, 0u8, 0u8, 0u8] + object_bytes(v));
    }
}

/// The end of an item is told with its id, the id that it is linked to as the
/// body has it, and the reason.
pub proof fn lemma_how_an_end_is_told(v: VanjectModel, reason: u8)
    ensures
        removed_packet(v, reason) == packet_of(
            Action::ITEM_REMOVED,
            i32_bytes(v.id) + (if v.body.len() >= 5 {
                v.body.subrange(1, 5)
            } else {
                seq![0u8, 0u8, 0u8, 0u8]
            }) + seq![reason],
        ),
{
    if v.body.len() >= 5 {
        lemma_read_is_written(v.body, 1);
    }
    assert(removed_packet(v, reason).data =~= i32_bytes(v.id) + (if v.body.len() >= 5 {
        v.body.subrange(1, 5)
    } else {
        seq![0u8, 0u8, 0u8, 0u8]
    }) + seq![reason]);
}

/// A packet that the server makes has the action and the payload that it was
/// made of; its bytes are the size of what follows, in two bytes and as far as
/// it fits there, the action and the payload.
pub proof fn lemma_packet_on_the_wire(action: Action, data: Seq<u8>)
    ensures
        packet_of(action, data).action == action,
        packet_of(action, data).data == data,
        ({
            let w = wire(packet_of(action, data));
            &&& w.len() == data.len() + 3
            &&& w[0] + 0x100 * w[1] == (data.len() + 1) % 0x1_0000
            &&& w[2] == code_of(action)
            &&& w.skip(3) == data
        }),
{
    assert(wire(packet_of(action, data)).skip(3) =~= data);
}

/// The rating stands in the ninth to the twelfth byte of a record.
pub proof fn lemma_rating_is_in_the_record(record: Seq<u8>)
    requires
        record.len() >= 12,
    ensures
        u32_bytes(rating_in(record)) == record.subrange(8, 12),
{
    lemma_read_is_written(record, 8);
}

/// What is told of a player: number, status, world and position, then its name
/// and its record as they are; zero stands for a number or a world that it does
/// not have.
pub proof fn lemma_player_on_the_wire(p: PlayerModel)
    ensures
        ({
            let b = player_bytes(p);
            let name = if p.auth is Some { p.auth->0.name } else { Seq::empty() };
            let record = if p.body is Some { p.body->0 } else { Seq::empty() };
            &&& b.len() == 7 + name.len() + record.len()
            &&& b[0] == if p.bind is Some { p.bind->0.id } else { 0 }
            &&& b[1] == match p.status {
                Status::INITIAL => 0u8,
                Status::GAMING => 1u8,
                Status::FINISHED => 2u8,
            }
            &&& b[2] == if p.world is Some { p.world->0.id } else { 0 }
            &&& b.subrange(3, 7) == i16_bytes(p.pos.x) + i16_bytes(p.pos.y)
            &&& b.subrange(7, 7 + name.len() as int) == name
            &&& b.skip(7 + name.len() as int) == record
        }),
{
    let b = player_bytes(p);
    let name = if p.auth is Some { p.auth->0.name } else { Seq::empty() };
    let record = if p.body is Some { p.body->0 } else { Seq::empty() };
    assert(b.subrange(3, 7) =~= i16_bytes(p.pos.x) + i16_bytes(p.pos.y));
    assert(b.subrange(7, 7 + name.len() as int) =~= name);
    assert(b.skip(7 + name.len() as int) =~= record);
}

/// The roster of a game says how many players it has and tells of all of them
/// in their order.
pub proof fn lemma_roster_tells_of_all(players: Seq<PlayerModel>, more: Seq<PlayerModel>)
    ensures
        roster_bytes(players + more) == roster_bytes(players) + roster_bytes(more),
        players.len() == 1 ==> roster_bytes(players) == player_bytes(players[0]),
    decreases more.len(),
{
    if players.len() == 1 {
        assert(roster_bytes(players.drop_last()) =~= Seq::<u8>::empty());
        assert(roster_bytes(players) =~= player_bytes(players[0]));
    }
    if more.len() == 0 {
        assert(players + more =~= players);
        assert(roster_bytes(players + more) =~= roster_bytes(players) + roster_bytes(more));
    } else {
        lemma_roster_tells_of_all(players, more.drop_last());
        assert((players + more).drop_last() =~= players + more.drop_last());
        assert((players + more).last() == more.last());
        assert(roster_bytes(players + more) =~= roster_bytes(players) + roster_bytes(more));
    }
}

/// The roster is sent with the number of players in front, as far as it fits
/// into a byte.
pub proof fn lemma_roster_counts(g: GameModel)
    ensures
        roster_packet(g).action == Action::TOTAL_PLAYERS_DATA_RESPONSE,
        roster_packet(g).data.len() > 0,
        roster_packet(g).data[0] == g.players.len() % 256,
        roster_packet(g).data.skip(1) == roster_bytes(g.players),
{
    assert(roster_packet(g).data.skip(1) =~= roster_bytes(g.players));
}

/// A client is let in with the greeting of the server, a zero byte and the
/// version that it speaks.
pub proof fn lemma_welcome(protocol: u8)
    ensures
        welcome_bytes(protocol).len() == 26,
        welcome_bytes(protocol).take(24) == HS_OUT@,
        welcome_bytes(protocol)[24] == 0,
        welcome_bytes(protocol)[25] == protocol,
{
    assert(welcome_bytes(protocol).take(24) =~= HS_OUT@);
}

/// Why a client is turned away: a byte of its greeting is wrong; or the byte
/// behind the greeting is not zero; or it speaks another version.
pub proof fn lemma_why_turned_away(received: Seq<u8>)
    ensures
        verdict(received) == Verdict::Refused(AuthError::HsUnexpectedRequestHeader) <==> exists|
            i: int,
        |
            0 <= i < received.len() && i < 36 && #[trigger] received[i] != HS_IN@[i],
        verdict(received) == Verdict::Refused(AuthError::HsZeroTerminated) <==> received.len() > 36
            && received.take(36) == HS_IN@ && received[36] != 0,
        verdict(received) is Refused && !(verdict(received)->Refused_0
            is HsUnexpectedRequestHeader) && !(verdict(received)->Refused_0 is HsZeroTerminated)
            ==> received.len() > 37 && received[37] != 3 && verdict(received) == Verdict::Refused(
            AuthError::HsUnexpectedProtocolVersion(3, received[37]),
        ),
        verdict(received) is Welcome ==> verdict(received) == Verdict::Welcome(3),
        verdict(received) is NeedMore ==> received.len() < 38,
{
    let magic = HS_IN@;
    let n = if received.len() < 36 { received.len() as int } else { 36 };
    assert(magic.len() == 36);
    if received.take(n) != magic.take(n) {
        assert(exists|i: int| 0 <= i < n && received[i] != magic[i]) by {
            if forall|i: int| 0 <= i < n ==> received[i] == magic[i] {
                assert(received.take(n) =~= magic.take(n));
            }
        }
        if received.len() > 36 && received.take(36) == magic {
            assert(received.take(n) =~= magic.take(n));
        }
    } else {
        assert forall|i: int| 0 <= i < n implies received[i] == magic[i] by {
            assert(received.take(n)[i] == magic.take(n)[i]);
        }
        assert(magic.take(36) =~= magic);
    }
}

/// Dropped packets are reported at once if none was reported before, and else
/// at the earliest after five seconds; a report starts the five seconds anew.
pub proof fn lemma_reports_are_five_seconds_apart(log: LossyDropLog, now_ms: u64, later_ms: u64)
    requires
        0 < now_ms <= later_ms,
    ensures
        log.last_log_ms == 0 ==> drop_is_reported(log, now_ms),
        drop_is_reported(log, now_ms) ==> {
            let after = after_drop(log, now_ms);
            &&& drop_is_reported(after, later_ms) <==> later_ms - now_ms >= 5_000
            &&& after.suppressed == 0
        },
        drop_is_reported(log, now_ms) <==> log.last_log_ms == 0 || now_ms >= log.last_log_ms
            + 5_000,
        !drop_is_reported(log, now_ms) ==> {
            let after = after_drop(log, now_ms);
            &&& after.last_log_ms == log.last_log_ms
            &&& after.suppressed == (log.suppressed + 1) % 0x1_0000_0000_0000_0000
        },
{
}

} // verus!
