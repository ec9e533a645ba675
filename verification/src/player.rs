//! Players of a game.

use vstd::prelude::*;

use crate::bytes::{copy_range, le_u32, read_u32};
use crate::client::ClientID;
use crate::game::World;
use crate::vanject::Pos;

verus! {

/// The number of a player within its game.
#[derive(Clone, Copy, Debug, PartialEq, Eq, Structural)]
pub struct Bind {
    pub id: u8,
}

impl Bind {
    /// The number itself.
    pub fn id(&self) -> (r: u8)
        ensures
            r == self.id,
    {
        self.id
    }
}

/// How far a player has come in its game.
#[allow(clippy::upper_case_acronyms)]
#[derive(Clone, Copy, Debug, PartialEq, Eq, Structural)]
pub enum Status {
    INITIAL,
    GAMING,
    FINISHED,
}

/// The byte that stands for a status on the wire.
pub open spec fn status_code(status: Status) -> u8 {
    match status {
        Status::INITIAL => 0,
        Status::GAMING => 1,
        Status::FINISHED => 2,
    }
}

impl Status {
    /// The byte that stands for this status on the wire.
    pub fn code(self) -> (r: u8)
        ensures
            r == status_code(self),
    {
        match self {
            Status::INITIAL => 0,
            Status::GAMING => 1,
            Status::FINISHED => 2,
        }
    }
}

/// A player's registered name and password, each with its closing zero byte.
#[derive(Debug)]
pub struct Auth {
    pub name: Vec<u8>,
    pub password: Vec<u8>,
}

/// How many bytes a player's record has.
pub const BODY_SIZE: usize = 41;

/// Where the rating stands in a player's record.
pub const RATING_OFFSET: usize = 8;

/// A player's record: money, kills, rating and the like, as the client sent it.
#[derive(Debug)]
pub struct Body {
    pub bytes: Vec<u8>,
}

/// The rating in a record, as the bits of a single-precision number.
pub open spec fn rating_in(record: Seq<u8>) -> u32 {
    le_u32(record, RATING_OFFSET as int) as u32
}

impl Body {
    /// Whether the record is complete.
    pub open spec fn wf(&self) -> bool {
        self.bytes@.len() == BODY_SIZE
    }

    /// Reads a record from the start of `slice`.
    pub fn from_slice(slice: &[u8]) -> (r: Option<Body>)
        ensures
            slice@.len() < BODY_SIZE ==> r is None,
            slice@.len() >= BODY_SIZE ==> (r matches Some(b) && b.wf() && b.bytes@ == slice@.take(
                BODY_SIZE as int,
            )),
    {
        if slice.len() < BODY_SIZE {
            None
        } else {
            let bytes = copy_range(slice, 0, BODY_SIZE);
            assert(bytes@ =~= slice@.take(BODY_SIZE as int));
            Some(Body { bytes })
        }
    }

    /// The bits of the rating.
    pub fn rating_bits(&self) -> (r: u32)
        requires
            self.wf(),
        ensures
            r == rating_in(self.bytes@),
    {
        read_u32(&self.bytes, RATING_OFFSET)
    }
}

/// Bytes were too few for a player's record.
#[derive(Clone, Copy, Debug, PartialEq, Eq, Structural)]
pub struct BodyTooSmall;

/// A player attached to a game.
#[derive(Debug)]
pub struct Player {
    pub client_id: ClientID,
    pub bind: Option<Bind>,
    pub auth: Option<Auth>,
    pub body: Option<Body>,
    pub status: Status,
    pub pos: Pos,
    pub screen_y_half_size: i16,
    pub world: Option<World>,
    /// The moment, in milliseconds since the server started, at which a
    /// player whose connection broke is given up.
    pub disconnected_until: Option<u64>,
}

/// The value of an [`Auth`].
#[verifier::ext_equal]
pub struct AuthModel {
    pub name: Seq<u8>,
    pub password: Seq<u8>,
}

/// The value of a [`Player`].
#[verifier::ext_equal]
pub struct PlayerModel {
    pub client_id: ClientID,
    pub bind: Option<Bind>,
    pub auth: Option<AuthModel>,
    pub body: Option<Seq<u8>>,
    pub status: Status,
    pub pos: Pos,
    pub screen_y_half_size: i16,
    pub world: Option<World>,
    pub disconnected_until: Option<u64>,
}

impl View for Player {
    type V = PlayerModel;

    open spec fn view(&self) -> PlayerModel {
        PlayerModel {
            client_id: self.client_id,
            bind: self.bind,
            auth: match self.auth {
                Some(a) => Some(AuthModel { name: a.name@, password: a.password@ }),
                None => None,
            },
            body: match self.body {
                Some(b) => Some(b.bytes@),
                None => None,
            },
            status: self.status,
            pos: self.pos,
            screen_y_half_size: self.screen_y_half_size,
            world: self.world,
            disconnected_until: self.disconnected_until,
        }
    }
}

/// A player that has only just come in over the connection `client_id`.
pub open spec fn fresh_player(client_id: ClientID) -> PlayerModel {
    PlayerModel {
        client_id,
        bind: None,
        auth: None,
        body: None,
        status: Status::INITIAL,
        pos: Pos { x: 0, y: 0 },
        screen_y_half_size: 0,
        world: None,
        disconnected_until: None,
    }
}

/// Whether the record of a player, where it has one, is complete.
pub open spec fn player_wf(p: PlayerModel) -> bool {
    p.body matches Some(bytes) ==> bytes.len() == BODY_SIZE
}

impl Player {
    /// A player that has only just come in.
    pub fn new(client_id: ClientID) -> (p: Player)
        ensures
            p@ == fresh_player(client_id),
    {
        Player {
            client_id,
            bind: None,
            auth: None,
            body: None,
            status: Status::INITIAL,
            pos: Pos { x: 0, y: 0 },
            screen_y_half_size: 0,
            world: None,
            disconnected_until: None,
        }
    }

    /// Registers the player under `name`.
    pub fn set_auth(&mut self, name: &[u8], password: &[u8])
        ensures
            final(self)@ == (PlayerModel {
                auth: Some(AuthModel { name: name@, password: password@ }),
                ..old(self)@
            }),
    {
        let name_copy = copy_range(name, 0, name.len());
        let password_copy = copy_range(password, 0, password.len());
        assert(name_copy@ =~= name@);
        assert(password_copy@ =~= password@);
        self.auth = Some(Auth { name: name_copy, password: password_copy });
    }

    /// Takes over the player's record, if `slice` holds one.
    pub fn set_body(&mut self, slice: &[u8]) -> (r: Result<(), BodyTooSmall>)
        ensures
            slice@.len() < BODY_SIZE ==> r is Err && final(self)@ == old(self)@,
            slice@.len() >= BODY_SIZE ==> r is Ok && final(self)@ == (PlayerModel {
                body: Some(slice@.take(BODY_SIZE as int)),
                ..old(self)@
            }),
    {
        match Body::from_slice(slice) {
            Some(body) => {
                self.body = Some(body);
                Ok(())
            },
            None => Err(BodyTooSmall),
        }
    }
}

} // verus!
