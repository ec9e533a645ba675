//! Packets and the actions that they carry.

use vstd::prelude::*;

use crate::bytes::{copy_range, push_tail};

verus! {

/// What a packet asks for or reports.
#[allow(non_camel_case_types)]
#[derive(Clone, Copy, Debug, PartialEq, Eq, Structural)]
pub enum Action {
    GAMES_LIST_QUERY,
    TOP_LIST_QUERY,
    ATTACH_TO_GAME,
    RESTORE_CONNECTION,
    CLOSE_SOCKET,
    REGISTER_NAME,
    SERVER_TIME_QUERY,
    SET_WORLD,
    LEAVE_WORLD,
    SET_POSITION,
    TOTAL_PLAYERS_DATA_QUERY,
    SET_GAME_DATA,
    GET_GAME_DATA,
    SET_PLAYER_DATA,
    DIRECT_SENDING,
    ITEM_TRANSFER,
    GAMES_LIST_RESPONSE,
    TOP_LIST_RESPONSE,
    ATTACH_TO_GAME_RESPONSE,
    RESTORE_CONNECTION_RESPONSE,
    SERVER_TIME_RESPONSE,
    SET_WORLD_RESPONSE,
    TOTAL_PLAYERS_DATA_RESPONSE,
    SERVER_TIME,
    PLAYERS_DATA,
    PLAYERS_POSITION,
    PLAYERS_WORLD,
    PLAYERS_STATUS,
    WORLD_SNAPSHOT_BEGIN,
    WORLD_SNAPSHOT_END,
    ITEM_STATE,
    ITEM_REMOVED,
    CREATE_OBJECT,
    DELETE_OBJECT,
    UPDATE_OBJECT,
    /// Any byte that stands for none of the actions above.
    UNKNOWN,
}

/// The byte that stands for an action on the wire.
pub open spec fn code_of(action: Action) -> u8 {
    match action {
        Action::GAMES_LIST_QUERY => 0x81,
        Action::TOP_LIST_QUERY => 0x82,
        Action::ATTACH_TO_GAME => 0x83,
        Action::RESTORE_CONNECTION => 0x84,
        Action::CLOSE_SOCKET => 0x86,
        Action::REGISTER_NAME => 0x88,
        Action::SERVER_TIME_QUERY => 0x89,
        Action::SET_WORLD => 0x8A,
        Action::LEAVE_WORLD => 0x8B,
        Action::SET_POSITION => 0x8C,
        Action::TOTAL_PLAYERS_DATA_QUERY => 0x8D,
        Action::SET_GAME_DATA => 0x8E,
        Action::GET_GAME_DATA => 0x8F,
        Action::SET_PLAYER_DATA => 0x90,
        Action::DIRECT_SENDING => 0x91,
        Action::ITEM_TRANSFER => 0x92,
        Action::GAMES_LIST_RESPONSE => 0xC1,
        Action::TOP_LIST_RESPONSE => 0xC2,
        Action::ATTACH_TO_GAME_RESPONSE => 0xC3,
        Action::RESTORE_CONNECTION_RESPONSE => 0xC4,
        Action::SERVER_TIME_RESPONSE => 0xC9,
        Action::SET_WORLD_RESPONSE => 0xCA,
        Action::TOTAL_PLAYERS_DATA_RESPONSE => 0xCD,
        Action::SERVER_TIME => 0xCE,
        Action::PLAYERS_DATA => 0xD0,
        Action::PLAYERS_POSITION => 0xD1,
        Action::PLAYERS_WORLD => 0xD2,
        Action::PLAYERS_STATUS => 0xD3,
        Action::WORLD_SNAPSHOT_BEGIN => 0xD4,
        Action::WORLD_SNAPSHOT_END => 0xD5,
        Action::ITEM_STATE => 0xD6,
        Action::ITEM_REMOVED => 0xD7,
        Action::CREATE_OBJECT => 0x04,
        Action::DELETE_OBJECT => 0x08,
        Action::UPDATE_OBJECT => 0x0C,
        Action::UNKNOWN => 0x00,
    }
}

/// The action that a byte stands for.
pub open spec fn action_of(code: u8) -> Action {
    match code {
        0x81u8 => Action::GAMES_LIST_QUERY,
        0x82u8 => Action::TOP_LIST_QUERY,
        0x83u8 => Action::ATTACH_TO_GAME,
        0x84u8 => Action::RESTORE_CONNECTION,
        0x86u8 => Action::CLOSE_SOCKET,
        0x88u8 => Action::REGISTER_NAME,
        0x89u8 => Action::SERVER_TIME_QUERY,
        0x8Au8 => Action::SET_WORLD,
        0x8Bu8 => Action::LEAVE_WORLD,
        0x8Cu8 => Action::SET_POSITION,
        0x8Du8 => Action::TOTAL_PLAYERS_DATA_QUERY,
        0x8Eu8 => Action::SET_GAME_DATA,
        0x8Fu8 => Action::GET_GAME_DATA,
        0x90u8 => Action::SET_PLAYER_DATA,
        0x91u8 => Action::DIRECT_SENDING,
        0x92u8 => Action::ITEM_TRANSFER,
        0xC1u8 => Action::GAMES_LIST_RESPONSE,
        0xC2u8 => Action::TOP_LIST_RESPONSE,
        0xC3u8 => Action::ATTACH_TO_GAME_RESPONSE,
        0xC4u8 => Action::RESTORE_CONNECTION_RESPONSE,
        0xC9u8 => Action::SERVER_TIME_RESPONSE,
        0xCAu8 => Action::SET_WORLD_RESPONSE,
        0xCDu8 => Action::TOTAL_PLAYERS_DATA_RESPONSE,
        0xCEu8 => Action::SERVER_TIME,
        0xD0u8 => Action::PLAYERS_DATA,
        0xD1u8 => Action::PLAYERS_POSITION,
        0xD2u8 => Action::PLAYERS_WORLD,
        0xD3u8 => Action::PLAYERS_STATUS,
        0xD4u8 => Action::WORLD_SNAPSHOT_BEGIN,
        0xD5u8 => Action::WORLD_SNAPSHOT_END,
        0xD6u8 => Action::ITEM_STATE,
        0xD7u8 => Action::ITEM_REMOVED,
        0x04u8 => Action::CREATE_OBJECT,
        0x08u8 => Action::DELETE_OBJECT,
        0x0Cu8 => Action::UPDATE_OBJECT,
        _ => Action::UNKNOWN,
    }
}

/// Every known action is read back from its byte.
pub proof fn lemma_action_code_round_trip(action: Action)
    ensures
        action_of(code_of(action)) == action,
{
}

/// A byte that stands for a known action is that action's byte.
pub proof fn lemma_code_action_round_trip(code: u8)
    requires
        action_of(code) != Action::UNKNOWN,
    ensures
        code_of(action_of(code)) == code,
{
}

/// Whether a newer packet of this action makes an older one worthless.
pub open spec fn lossy_realtime(action: Action) -> bool {
    action == Action::UPDATE_OBJECT || action == Action::SERVER_TIME
}

/// The action of the answer to a request, for the requests that have one.
pub open spec fn answer_of(action: Action) -> Option<Action> {
    match action {
        Action::TOP_LIST_QUERY => Some(Action::TOP_LIST_RESPONSE),
        Action::RESTORE_CONNECTION => Some(Action::RESTORE_CONNECTION_RESPONSE),
        Action::SET_WORLD => Some(Action::SET_WORLD_RESPONSE),
        _ => None,
    }
}

impl Action {
    /// The byte that stands for this action on the wire.
    pub fn code(self) -> (c: u8)
        ensures
            c == code_of(self),
    {
        match self {
            Action::GAMES_LIST_QUERY => 0x81,
            Action::TOP_LIST_QUERY => 0x82,
            Action::ATTACH_TO_GAME => 0x83,
            Action::RESTORE_CONNECTION => 0x84,
            Action::CLOSE_SOCKET => 0x86,
            Action::REGISTER_NAME => 0x88,
            Action::SERVER_TIME_QUERY => 0x89,
            Action::SET_WORLD => 0x8A,
            Action::LEAVE_WORLD => 0x8B,
            Action::SET_POSITION => 0x8C,
            Action::TOTAL_PLAYERS_DATA_QUERY => 0x8D,
            Action::SET_GAME_DATA => 0x8E,
            Action::GET_GAME_DATA => 0x8F,
            Action::SET_PLAYER_DATA => 0x90,
            Action::DIRECT_SENDING => 0x91,
            Action::ITEM_TRANSFER => 0x92,
            Action::GAMES_LIST_RESPONSE => 0xC1,
            Action::TOP_LIST_RESPONSE => 0xC2,
            Action::ATTACH_TO_GAME_RESPONSE => 0xC3,
            Action::RESTORE_CONNECTION_RESPONSE => 0xC4,
            Action::SERVER_TIME_RESPONSE => 0xC9,
            Action::SET_WORLD_RESPONSE => 0xCA,
            Action::TOTAL_PLAYERS_DATA_RESPONSE => 0xCD,
            Action::SERVER_TIME => 0xCE,
            Action::PLAYERS_DATA => 0xD0,
            Action::PLAYERS_POSITION => 0xD1,
            Action::PLAYERS_WORLD => 0xD2,
            Action::PLAYERS_STATUS => 0xD3,
            Action::WORLD_SNAPSHOT_BEGIN => 0xD4,
            Action::WORLD_SNAPSHOT_END => 0xD5,
            Action::ITEM_STATE => 0xD6,
            Action::ITEM_REMOVED => 0xD7,
            Action::CREATE_OBJECT => 0x04,
            Action::DELETE_OBJECT => 0x08,
            Action::UPDATE_OBJECT => 0x0C,
            Action::UNKNOWN => 0x00,
        }
    }

    /// The action that `code` stands for, [`Action::UNKNOWN`] where none does.
    pub fn from_u8(code: u8) -> (a: Action)
        ensures
            a == action_of(code),
    {
        match code {
            0x81u8 => Action::GAMES_LIST_QUERY,
            0x82u8 => Action::TOP_LIST_QUERY,
            0x83u8 => Action::ATTACH_TO_GAME,
            0x84u8 => Action::RESTORE_CONNECTION,
            0x86u8 => Action::CLOSE_SOCKET,
            0x88u8 => Action::REGISTER_NAME,
            0x89u8 => Action::SERVER_TIME_QUERY,
            0x8Au8 => Action::SET_WORLD,
            0x8Bu8 => Action::LEAVE_WORLD,
            0x8Cu8 => Action::SET_POSITION,
            0x8Du8 => Action::TOTAL_PLAYERS_DATA_QUERY,
            0x8Eu8 => Action::SET_GAME_DATA,
            0x8Fu8 => Action::GET_GAME_DATA,
            0x90u8 => Action::SET_PLAYER_DATA,
            0x91u8 => Action::DIRECT_SENDING,
            0x92u8 => Action::ITEM_TRANSFER,
            0xC1u8 => Action::GAMES_LIST_RESPONSE,
            0xC2u8 => Action::TOP_LIST_RESPONSE,
            0xC3u8 => Action::ATTACH_TO_GAME_RESPONSE,
            0xC4u8 => Action::RESTORE_CONNECTION_RESPONSE,
            0xC9u8 => Action::SERVER_TIME_RESPONSE,
            0xCAu8 => Action::SET_WORLD_RESPONSE,
            0xCDu8 => Action::TOTAL_PLAYERS_DATA_RESPONSE,
            0xCEu8 => Action::SERVER_TIME,
            0xD0u8 => Action::PLAYERS_DATA,
            0xD1u8 => Action::PLAYERS_POSITION,
            0xD2u8 => Action::PLAYERS_WORLD,
            0xD3u8 => Action::PLAYERS_STATUS,
            0xD4u8 => Action::WORLD_SNAPSHOT_BEGIN,
            0xD5u8 => Action::WORLD_SNAPSHOT_END,
            0xD6u8 => Action::ITEM_STATE,
            0xD7u8 => Action::ITEM_REMOVED,
            0x04u8 => Action::CREATE_OBJECT,
            0x08u8 => Action::DELETE_OBJECT,
            0x0Cu8 => Action::UPDATE_OBJECT,
            _ => Action::UNKNOWN,
        }
    }

    /// Whether a newer packet of this action makes an older one worthless, so
    /// that it may be dropped where a queue is full.
    pub fn is_lossy_realtime(self) -> (r: bool)
        ensures
            r == lossy_realtime(self),
    {
        match self {
            Action::UPDATE_OBJECT | Action::SERVER_TIME => true,
            _ => false,
        }
    }

    /// The action of the answer to this request, if it has one.
    pub fn answer(self) -> (r: Option<Action>)
        ensures
            r == answer_of(self),
    {
        match self {
            Action::TOP_LIST_QUERY => Some(Action::TOP_LIST_RESPONSE),
            Action::RESTORE_CONNECTION => Some(Action::RESTORE_CONNECTION_RESPONSE),
            Action::SET_WORLD => Some(Action::SET_WORLD_RESPONSE),
            _ => None,
        }
    }
}

/// A packet: an action and its payload.
#[derive(Debug)]
pub struct Packet {
    pub action: Action,
    /// The byte that the action was read from; [`Action::code`] for a packet
    /// that the server makes.
    pub real_action: u8,
    pub data: Vec<u8>,
}

/// The value of a [`Packet`].
#[verifier::ext_equal]
pub struct PacketModel {
    pub action: Action,
    pub real_action: u8,
    pub data: Seq<u8>,
}

impl View for Packet {
    type V = PacketModel;

    open spec fn view(&self) -> PacketModel {
        PacketModel { action: self.action, real_action: self.real_action, data: self.data@ }
    }
}

/// The packet that the server makes of an action and a payload.
pub open spec fn packet_of(action: Action, data: Seq<u8>) -> PacketModel {
    PacketModel { action, real_action: code_of(action), data }
}

/// A packet on the wire: two bytes for the number of bytes that follow them,
/// the action, the payload.
pub open spec fn wire(p: PacketModel) -> Seq<u8> {
    let size = (p.data.len() + 1) % 65536;
    seq![(size % 256) as u8, (size / 256) as u8, p.real_action] + p.data
}

/// The packet that `bytes` hold.
pub open spec fn packet_on_wire(bytes: Seq<u8>) -> PacketModel
    recommends
        bytes.len() >= 3,
{
    PacketModel { action: action_of(bytes[2]), real_action: bytes[2], data: bytes.skip(3) }
}

/// A packet that the server makes is read back from its bytes unchanged.
pub proof fn lemma_packet_round_trip(action: Action, data: Seq<u8>)
    ensures
        packet_on_wire(wire(packet_of(action, data))) == packet_of(action, data),
{
    assert(wire(packet_of(action, data)).skip(3) =~= data);
}

impl Packet {
    /// A packet with the payload `data`.
    pub fn new(action: Action, data: &[u8]) -> (p: Packet)
        ensures
            p@ == packet_of(action, data@),
    {
        let copy = copy_range(data, 0, data.len());
        assert(copy@ =~= data@);
        Packet { action, real_action: action.code(), data: copy }
    }

    /// The packet whose bytes, size field included, are `slice`.
    pub fn from_slice(slice: &[u8]) -> (p: Packet)
        requires
            slice@.len() >= 3,
        ensures
            p@ == packet_on_wire(slice@),
    {
        let data = copy_range(slice, 3, slice.len());
        assert(data@ =~= slice@.skip(3));
        Packet { action: Action::from_u8(slice[2]), real_action: slice[2], data }
    }

    /// The bytes of the packet on the wire.
    pub fn as_bytes(&self) -> (bytes: Vec<u8>)
        ensures
            bytes@ == wire(self@),
    {
        let size: usize = (self.data.len() % 65536 + 1) % 65536;
        let mut bytes: Vec<u8> = Vec::new();
        bytes.push((size % 256) as u8);
        bytes.push((size / 256) as u8);
        bytes.push(self.real_action);
        push_tail(&mut bytes, &self.data, 0);
        assert(self.data@.skip(0) =~= self.data@);
        assert(bytes@ =~= wire(self@));
        bytes
    }

    /// The answer to this request with the payload `data`, if requests of this
    /// action are answered.
    pub fn create_answer(&self, data: Vec<u8>) -> (r: Option<Packet>)
        ensures
            match answer_of(self.action) {
                Some(action) => r matches Some(p) && p@ == packet_of(action, data@),
                None => r is None,
            },
    {
        match self.action.answer() {
            Some(action) => Some(Packet { action, real_action: action.code(), data }),
            None => None,
        }
    }
}

impl Clone for Packet {
    fn clone(&self) -> (r: Self)
        ensures
            r@ == self@,
    {
        let data = copy_range(&self.data, 0, self.data.len());
        assert(data@ =~= self.data@);
        Packet { action: self.action, real_action: self.real_action, data }
    }
}

} // verus!
