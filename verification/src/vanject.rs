//! The objects of a game and the layout of their network ids.
//!
//! An id is 32 bits wide: six for the station (the player who made the
//! object), four for the world, six for the type, sixteen for a counter.

use vstd::prelude::*;

use crate::bytes::{
    copy_range, i16_bytes, i32_bytes, lemma_i16_round_trip, lemma_i32_round_trip, push_i16,
    push_i32, push_tail, read_i16, read_i32,
};
use crate::bytes::{le_i16, le_i32};
use crate::player::Player;

verus! {

/// The types of objects, as they stand in an id.
///
/// The lowest two bits of the type mark what a player carries, the fourth what
/// is private to its station, the fifth what is fixed in a world, the sixth
/// what belongs to no world.
#[allow(clippy::upper_case_acronyms)]
pub struct NID;

impl NID {
    pub const DEVICE: i32 = 0x0001_0000;
    pub const SLOT: i32 = 0x0002_0000;
    pub const SHELL: i32 = 0x0003_0000;
    pub const STUFF: i32 = 0x0004_0000;
    pub const VANGER: i32 = 0x0009_0000;
    pub const SENSOR: i32 = 0x0010_0000;
    pub const TNT: i32 = 0x0014_0000;
    pub const GLOBAL: i32 = 0x0020_0000;
}

/// The station in an id.
pub open spec fn station_of(id: i32) -> i32 {
    (id >> 26u32) & 63
}

/// The world in an id.
pub open spec fn world_of(id: i32) -> i32 {
    (id >> 22u32) & 15
}

/// The type in an id.
pub open spec fn type_of(id: i32) -> i32 {
    id & 0x003F_0000
}

/// The counter in an id.
pub open spec fn counter_of(id: i32) -> i32 {
    id & 0xFFFF
}

/// Whether an id belongs to some world.
pub open spec fn non_global_id(id: i32) -> bool {
    id & 0x0020_0000 == 0
}

/// Whether an id is private to its station.
pub open spec fn private_id(id: i32) -> bool {
    id & 0x0008_0000 != 0
}

/// Whether an id names something that a player carries.
pub open spec fn players_id(id: i32) -> bool {
    id & 0x0003_0000 != 0
}

/// Whether an id names something fixed in its world.
pub open spec fn static_id(id: i32) -> bool {
    id & 0x0010_0000 != 0
}

/// The fields of an id put together are read back from it.
pub proof fn lemma_id_fields(station: i32, world: i32, nid: i32, counter: i32)
    requires
        0 <= station < 64,
        0 <= world < 16,
        nid & 0x003F_0000 == nid,
        0 <= counter < 0x1_0000,
    ensures
        ({
            let id = (station << 26u32) | (world << 22u32) | nid | counter;
            &&& station_of(id) == station
            &&& world_of(id) == world
            &&& type_of(id) == nid
            &&& counter_of(id) == counter
        }),
{
    let id = (station << 26u32) | (world << 22u32) | nid | counter;
    assert((id >> 26u32) & 63 == station && (id >> 22u32) & 15 == world && id & 0x003F_0000 == nid
        && id & 0xFFFF == counter) by (bit_vector)
        requires
            0 <= station < 64,
            0 <= world < 16,
            nid & 0x003F_0000 == nid,
            0 <= counter < 0x1_0000,
            id == (station << 26u32) | (world << 22u32) | nid | counter,
    ;
}

/// An id is made of its fields and nothing else.
pub proof fn lemma_fields_make_the_id(a: i32, b: i32)
    requires
        station_of(a) == station_of(b),
        world_of(a) == world_of(b),
        type_of(a) == type_of(b),
        counter_of(a) == counter_of(b),
    ensures
        a == b,
{
    assert(a == b) by (bit_vector)
        requires
            (a >> 26u32) & 63 == (b >> 26u32) & 63,
            (a >> 22u32) & 15 == (b >> 22u32) & 15,
            a & 0x003F_0000 == b & 0x003F_0000,
            a & 0xFFFF == b & 0xFFFF,
    ;
}

/// The flags of an id are those of its type.
pub proof fn lemma_flags_follow_type(id: i32)
    ensures
        non_global_id(id) == non_global_id(type_of(id)),
        private_id(id) == private_id(type_of(id)),
        players_id(id) == players_id(type_of(id)),
        static_id(id) == static_id(type_of(id)),
{
    assert((id & 0x003F_0000) & 0x0020_0000 == id & 0x0020_0000) by (bit_vector);
    assert((id & 0x003F_0000) & 0x0008_0000 == id & 0x0008_0000) by (bit_vector);
    assert((id & 0x003F_0000) & 0x0003_0000 == id & 0x0003_0000) by (bit_vector);
    assert((id & 0x003F_0000) & 0x0010_0000 == id & 0x0010_0000) by (bit_vector);
}

/// How the named types are flagged.
pub proof fn lemma_named_types()
    ensures
        players_id(NID::DEVICE) && players_id(NID::SLOT) && players_id(NID::SHELL) && players_id(
            NID::VANGER,
        ),
        !players_id(NID::STUFF) && !players_id(NID::SENSOR) && !players_id(NID::TNT)
            && !players_id(NID::GLOBAL),
        private_id(NID::VANGER),
        !private_id(NID::DEVICE) && !private_id(NID::SLOT) && !private_id(NID::SHELL)
            && !private_id(NID::STUFF) && !private_id(NID::SENSOR) && !private_id(NID::TNT)
            && !private_id(NID::GLOBAL),
        static_id(NID::SENSOR) && static_id(NID::TNT),
        !static_id(NID::DEVICE) && !static_id(NID::SLOT) && !static_id(NID::SHELL) && !static_id(
            NID::STUFF,
        ) && !static_id(NID::VANGER) && !static_id(NID::GLOBAL),
        !non_global_id(NID::GLOBAL),
        non_global_id(NID::DEVICE) && non_global_id(NID::SLOT) && non_global_id(NID::SHELL)
            && non_global_id(NID::STUFF) && non_global_id(NID::VANGER) && non_global_id(NID::SENSOR)
            && non_global_id(NID::TNT),
{
    assert(0x0001_0000i32 & 0x0003_0000 != 0 && 0x0002_0000i32 & 0x0003_0000 != 0 && 0x0003_0000i32
        & 0x0003_0000 != 0 && 0x0009_0000i32 & 0x0003_0000 != 0 && 0x0004_0000i32 & 0x0003_0000 == 0
        && 0x0010_0000i32 & 0x0003_0000 == 0 && 0x0014_0000i32 & 0x0003_0000 == 0 && 0x0020_0000i32
        & 0x0003_0000 == 0) by (bit_vector);
    assert(0x0001_0000i32 & 0x0008_0000 == 0 && 0x0002_0000i32 & 0x0008_0000 == 0 && 0x0003_0000i32
        & 0x0008_0000 == 0 && 0x0009_0000i32 & 0x0008_0000 != 0 && 0x0004_0000i32 & 0x0008_0000 == 0
        && 0x0010_0000i32 & 0x0008_0000 == 0 && 0x0014_0000i32 & 0x0008_0000 == 0 && 0x0020_0000i32
        & 0x0008_0000 == 0) by (bit_vector);
    assert(0x0001_0000i32 & 0x0010_0000 == 0 && 0x0002_0000i32 & 0x0010_0000 == 0 && 0x0003_0000i32
        & 0x0010_0000 == 0 && 0x0009_0000i32 & 0x0010_0000 == 0 && 0x0004_0000i32 & 0x0010_0000 == 0
        && 0x0010_0000i32 & 0x0010_0000 != 0 && 0x0014_0000i32 & 0x0010_0000 != 0 && 0x0020_0000i32
        & 0x0010_0000 == 0) by (bit_vector);
    assert(0x0001_0000i32 & 0x0020_0000 == 0 && 0x0002_0000i32 & 0x0020_0000 == 0 && 0x0003_0000i32
        & 0x0020_0000 == 0 && 0x0009_0000i32 & 0x0020_0000 == 0 && 0x0004_0000i32 & 0x0020_0000 == 0
        && 0x0010_0000i32 & 0x0020_0000 == 0 && 0x0014_0000i32 & 0x0020_0000 == 0 && 0x0020_0000i32
        & 0x0020_0000 != 0) by (bit_vector);
}

/// A station, a world and a type are small and never negative.
pub proof fn lemma_field_ranges(id: i32)
    ensures
        0 <= station_of(id) < 64,
        0 <= world_of(id) < 16,
        0 <= counter_of(id) < 0x1_0000,
{
    assert(0 <= (id >> 26u32) & 63 < 64) by (bit_vector);
    assert(0 <= (id >> 22u32) & 15 < 16) by (bit_vector);
    assert(0 <= id & 0xFFFF < 0x1_0000) by (bit_vector);
}

/// The type in `id`.
pub fn get_vanject_type(id: i32) -> (r: i32)
    ensures
        r == type_of(id),
{
    id & 0x003F_0000
}

/// The world in `id`.
pub fn get_world(id: i32) -> (r: i32)
    ensures
        r == world_of(id),
        0 <= r < 16,
{
    proof {
        lemma_field_ranges(id);
    }
    (id >> 22u32) & 15
}

/// Whether `id` belongs to some world.
pub fn is_non_global_vanject(id: i32) -> (r: bool)
    ensures
        r == non_global_id(id),
{
    id & 0x0020_0000 == 0
}

/// An id taken apart.
#[derive(Clone, Copy, Debug)]
pub struct DecodedVanjectId {
    pub id: i32,
    pub station: i32,
    pub world: i32,
    pub type_id: i32,
    pub counter: i32,
    pub global: bool,
    pub private: bool,
    pub players_object: bool,
    pub static_object: bool,
}

impl DecodedVanjectId {
    /// Takes `id` apart.
    pub fn new(id: i32) -> (d: DecodedVanjectId)
        ensures
            d == (DecodedVanjectId {
                id,
                station: station_of(id),
                world: world_of(id),
                type_id: type_of(id),
                counter: counter_of(id),
                global: !non_global_id(id),
                private: private_id(id),
                players_object: players_id(id),
                static_object: static_id(id),
            }),
    {
        DecodedVanjectId {
            id,
            station: (id >> 26u32) & 63,
            world: get_world(id),
            type_id: get_vanject_type(id),
            counter: id & 0xFFFF,
            global: !is_non_global_vanject(id),
            private: id & 0x0008_0000 != 0,
            players_object: id & 0x0003_0000 != 0,
            static_object: id & 0x0010_0000 != 0,
        }
    }
}

/// A place in a world.
#[derive(Clone, Copy, Debug, PartialEq, Eq, Structural)]
pub struct Pos {
    pub x: i16,
    pub y: i16,
}

/// A position on the wire.
pub open spec fn pos_bytes(pos: Pos) -> Seq<u8> {
    i16_bytes(pos.x) + i16_bytes(pos.y)
}

impl Pos {
    /// Appends the bytes of the position.
    pub fn push_bytes(&self, out: &mut Vec<u8>)
        ensures
            final(out)@ == old(out)@ + pos_bytes(*self),
    {
        push_i16(out, self.x);
        push_i16(out, self.y);
        assert(out@ =~= old(out)@ + pos_bytes(*self));
    }
}

/// Why bytes are no object.
#[derive(Clone, Copy, Debug, PartialEq, Eq, Structural)]
pub enum VanjectError {
    /// There are too few bytes: so many.
    SliceTooSmall(usize),
    /// The player that was to own the object has no number in its game.
    PlayerNotBind,
}

/// An object of a game.
#[derive(Debug)]
pub struct Vanject {
    pub id: i32,
    pub time: i32,
    pub pos: Pos,
    pub radius: i16,
    /// The number of the player who owns the object now.
    pub player_bind_id: u8,
    pub body: Vec<u8>,
}

/// The value of a [`Vanject`].
#[verifier::ext_equal]
pub struct VanjectModel {
    pub id: i32,
    pub time: i32,
    pub pos: Pos,
    pub radius: i16,
    pub player_bind_id: u8,
    pub body: Seq<u8>,
}

impl View for Vanject {
    type V = VanjectModel;

    open spec fn view(&self) -> VanjectModel {
        VanjectModel {
            id: self.id,
            time: self.time,
            pos: self.pos,
            radius: self.radius,
            player_bind_id: self.player_bind_id,
            body: self.body@,
        }
    }
}

/// How many bytes come before the body where an object is created.
pub const CREATE_HEADER_SIZE: usize = 14;

/// How many bytes come before the body where an object is updated.
pub const UPDATE_HEADER_SIZE: usize = 12;

/// The object that a creation payload describes: id, time, position, radius,
/// body. Nobody owns it yet.
pub open spec fn created_object(s: Seq<u8>) -> VanjectModel {
    VanjectModel {
        id: le_i32(s, 0),
        time: le_i32(s, 4),
        pos: Pos { x: le_i16(s, 8), y: le_i16(s, 10) },
        radius: le_i16(s, 12),
        player_bind_id: 0,
        body: s.skip(CREATE_HEADER_SIZE as int),
    }
}

/// The object `v` after an update payload: id, time, position, body.
pub open spec fn updated_object(v: VanjectModel, s: Seq<u8>) -> VanjectModel {
    VanjectModel {
        time: le_i32(s, 4),
        pos: Pos { x: le_i16(s, 8), y: le_i16(s, 10) },
        body: s.skip(UPDATE_HEADER_SIZE as int),
        ..v
    }
}

/// What the clients are told of an object: id, owner, time, position, radius,
/// body.
pub open spec fn object_bytes(v: VanjectModel) -> Seq<u8> {
    i32_bytes(v.id) + seq![v.player_bind_id] + i32_bytes(v.time) + pos_bytes(v.pos) + i16_bytes(
        v.radius,
    ) + v.body
}

/// What the clients are told of an object gives the object back: no field is
/// lost on the way to them.
pub proof fn lemma_object_bytes_tell_all(v: VanjectModel)
    ensures
        object_bytes(v).len() == 15 + v.body.len(),
        le_i32(object_bytes(v), 0) == v.id,
        object_bytes(v)[4] == v.player_bind_id,
        le_i32(object_bytes(v), 5) == v.time,
        le_i16(object_bytes(v), 9) == v.pos.x,
        le_i16(object_bytes(v), 11) == v.pos.y,
        le_i16(object_bytes(v), 13) == v.radius,
        object_bytes(v).skip(15) == v.body,
{
    lemma_i32_round_trip(v.id);
    lemma_i32_round_trip(v.time);
    lemma_i16_round_trip(v.pos.x);
    lemma_i16_round_trip(v.pos.y);
    lemma_i16_round_trip(v.radius);
    assert(object_bytes(v).skip(15) =~= v.body);
}

impl Vanject {
    /// Reads a creation payload.
    pub fn create_from_slice(slice: &[u8]) -> (r: Result<Vanject, VanjectError>)
        ensures
            slice@.len() < CREATE_HEADER_SIZE ==> r == Err::<Vanject, VanjectError>(
                VanjectError::SliceTooSmall(slice@.len() as usize),
            ),
            slice@.len() >= CREATE_HEADER_SIZE ==> r is Ok && r->Ok_0@ == created_object(slice@),
    {
        if slice.len() < CREATE_HEADER_SIZE {
            return Err(VanjectError::SliceTooSmall(slice.len()));
        }
        let body = copy_range(slice, CREATE_HEADER_SIZE, slice.len());
        assert(body@ =~= slice@.skip(CREATE_HEADER_SIZE as int));
        Ok(
            Vanject {
                id: read_i32(slice, 0),
                time: read_i32(slice, 4),
                pos: Pos { x: read_i16(slice, 8), y: read_i16(slice, 10) },
                radius: read_i16(slice, 12),
                player_bind_id: 0,
                body,
            },
        )
    }

    /// Takes over time, position and body from an update payload; an update
    /// that is too small changes nothing.
    pub fn update_from_slice(&mut self, slice: &[u8]) -> (r: Result<(), VanjectError>)
        ensures
            slice@.len() < UPDATE_HEADER_SIZE ==> {
                &&& r == Err::<(), VanjectError>(
                    VanjectError::SliceTooSmall(slice@.len() as usize),
                )
                &&& final(self)@ == old(self)@
            },
            slice@.len() >= UPDATE_HEADER_SIZE ==> {
                &&& r is Ok
                &&& final(self)@ == updated_object(old(self)@, slice@)
            },
    {
        if slice.len() < UPDATE_HEADER_SIZE {
            return Err(VanjectError::SliceTooSmall(slice.len()));
        }
        let body = copy_range(slice, UPDATE_HEADER_SIZE, slice.len());
        assert(body@ =~= slice@.skip(UPDATE_HEADER_SIZE as int));
        self.time = read_i32(slice, 4);
        self.pos = Pos { x: read_i16(slice, 8), y: read_i16(slice, 10) };
        self.body = body;
        Ok(())
    }

    /// Makes `player` the owner, if it has a number in its game.
    pub fn bind_to_player(&mut self, player: &Player) -> (r: Result<(), VanjectError>)
        ensures
            match player.bind {
                Some(bind) => r is Ok && final(self)@ == (VanjectModel {
                    player_bind_id: bind.id,
                    ..old(self)@
                }),
                None => r == Err::<(), VanjectError>(VanjectError::PlayerNotBind) && final(self)@
                    == old(self)@,
            },
    {
        match player.bind {
            Some(bind) => {
                self.player_bind_id = bind.id();
                Ok(())
            },
            None => Err(VanjectError::PlayerNotBind),
        }
    }

    /// What the clients are told of the object.
    pub fn to_vangers_byte(&self) -> (out: Vec<u8>)
        ensures
            out@ == object_bytes(self@),
    {
        let mut out: Vec<u8> = Vec::new();
        push_i32(&mut out, self.id);
        out.push(self.player_bind_id);
        push_i32(&mut out, self.time);
        self.pos.push_bytes(&mut out);
        push_i16(&mut out, self.radius);
        push_tail(&mut out, &self.body, 0);
        assert(self.body@.skip(0) =~= self.body@);
        assert(out@ =~= object_bytes(self@));
        out
    }

    /// The type of the object.
    pub fn get_type(&self) -> (r: i32)
        ensures
            r == type_of(self.id),
    {
        get_vanject_type(self.id)
    }

    /// The world of the object.
    pub fn get_world(&self) -> (r: i32)
        ensures
            r == world_of(self.id),
            0 <= r < 16,
    {
        get_world(self.id)
    }

    /// The station that made the object.
    pub fn get_station(&self) -> (r: i32)
        ensures
            r == station_of(self.id),
    {
        (self.id >> 26u32) & 63
    }

    /// Whether the object belongs to some world.
    pub fn is_non_global(&self) -> (r: bool)
        ensures
            r == non_global_id(self.id),
    {
        is_non_global_vanject(self.id)
    }

    /// Whether the object can be moved about in its world.
    pub fn is_non_static(&self) -> (r: bool)
        ensures
            r == !static_id(self.id),
    {
        self.id & 0x0010_0000 == 0
    }

    /// Whether the object is one that a player carries.
    pub fn is_players(&self) -> (r: bool)
        ensures
            r == players_id(self.id),
    {
        self.id & 0x0003_0000 != 0
    }

    /// Whether the object is private to its station.
    pub fn is_private(&self) -> (r: bool)
        ensures
            r == private_id(self.id),
    {
        self.id & 0x0008_0000 != 0
    }
}

} // verus!
