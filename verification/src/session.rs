//! One connection from its first byte to its end.
//!
//! A connection opens with the handshake. A client that is turned away is sent
//! a few words, and the server only hears that it is gone. Of one that is let
//! in the server hears first that it is, next each packet, and last that it is
//! gone.

use vstd::prelude::*;

use crate::bytes::copy_range;
use crate::client::{
    ClientID, Connection, ConnectionModel, MpscData, NewsModel, PROTOCOL_VERSION,
};
use crate::frames::{
    fed, frames, is_frame, joined, kept, lemma_chunking_is_irrelevant,
    lemma_frames_of_frames, malformed, packet_models, FrameBuffer, BUFFER_SIZE,
};
use crate::handshake::{
    lemma_verdict_is_final, lemma_who_is_let_in, verdict, welcome_bytes, AuthError, Handshake,
    Read, Step, Verdict, HS_IN,
};
use crate::protocol::{packet_on_wire, PacketModel};

verus! {

/// What a client that is turned away is sent: "Auth failed, bye-bye" and a zero
/// byte.
pub const AUTH_FAILED: [u8; 21] = [
    65, 117, 116, 104, 32, 102, 97, 105, 108, 101, 100, 44, 32,
    98, 121, 101, 45, 98, 121, 101, 0,
];

/// How many bytes are read at a time during the handshake.
pub const GREETING_READ: usize = 64;

enum Phase {
    Greeting(Handshake),
    Replying(u8),
    Open(FrameBuffer),
    Closed,
}

/// How far a connection has come.
#[verifier::ext_equal]
pub enum PhaseModel {
    /// The client has sent these bytes of its greeting.
    Greeting(Seq<u8>),
    /// The client, which speaks this version, is about to be let in.
    Replying(u8),
    /// The client is in; these bytes are no complete packet yet.
    Open(Seq<u8>),
    Closed,
}

/// A connection.
pub struct Session {
    id: ClientID,
    phase: Phase,
}

/// The value of a [`Session`].
#[verifier::ext_equal]
pub struct SessionModel {
    pub id: ClientID,
    pub phase: PhaseModel,
}

impl View for Session {
    type V = SessionModel;

    closed spec fn view(&self) -> SessionModel {
        SessionModel {
            id: self.id,
            phase: match self.phase {
                Phase::Greeting(handshake) => PhaseModel::Greeting(handshake@),
                Phase::Replying(protocol) => PhaseModel::Replying(protocol),
                Phase::Open(buffer) => PhaseModel::Open(buffer@),
                Phase::Closed => PhaseModel::Closed,
            },
        }
    }
}

/// What has happened to a connection.
pub enum Happening {
    /// A read came back.
    Read(Read),
    /// The reply to the greeting was sent, or could not be.
    ReplySent(bool),
}

/// The value of a [`Happening`]; a read that failed brought nothing.
#[verifier::ext_equal]
pub enum HappeningModel {
    Read(Option<Seq<u8>>),
    ReplySent(bool),
}

impl View for Happening {
    type V = HappeningModel;

    open spec fn view(&self) -> HappeningModel {
        match *self {
            Happening::Read(Read::Bytes(bytes)) => HappeningModel::Read(Some(bytes@)),
            Happening::Read(Read::Failed) => HappeningModel::Read(None),
            Happening::ReplySent(sent) => HappeningModel::ReplySent(sent),
        }
    }
}

/// What is to be done next with a connection.
pub enum Next {
    Read,
    /// Send this, and say whether it worked.
    Reply(Vec<u8>),
    /// Send this and shut the connection, for this reason.
    TurnAway(AuthError, Vec<u8>),
    Close,
}

/// The value of a [`Next`].
#[verifier::ext_equal]
pub enum NextModel {
    Read,
    Reply(Seq<u8>),
    TurnAway(AuthError, Seq<u8>),
    Close,
}

impl View for Next {
    type V = NextModel;

    open spec fn view(&self) -> NextModel {
        match *self {
            Next::Read => NextModel::Read,
            Next::Reply(data) => NextModel::Reply(data@),
            Next::TurnAway(error, data) => NextModel::TurnAway(error, data@),
            Next::Close => NextModel::Close,
        }
    }
}

/// What comes of something that happened: what the client is sent goes out
/// first, and the server then hears the news in their order.
pub struct Turn {
    pub next: Next,
    pub news: Vec<MpscData>,
    /// Whether a size field was met that can belong to no packet.
    pub malformed: bool,
}

/// The value of a [`Turn`].
#[verifier::ext_equal]
pub struct TurnModel {
    pub next: NextModel,
    pub news: Seq<NewsModel>,
    pub malformed: bool,
}

/// News, as values.
pub open spec fn news_models(news: Seq<MpscData>) -> Seq<NewsModel> {
    news.map_values(|n: MpscData| n@)
}

impl View for Turn {
    type V = TurnModel;

    open spec fn view(&self) -> TurnModel {
        TurnModel {
            next: self.next@,
            news: news_models(self.news@),
            malformed: self.malformed,
        }
    }
}

/// The news that a packet has come in.
pub open spec fn update_news(id: ClientID, packet: PacketModel) -> NewsModel {
    NewsModel { id, connection: ConnectionModel::Updated(packet) }
}

/// The news that packets have come in.
pub open spec fn updates(id: ClientID, packets: Seq<PacketModel>) -> Seq<NewsModel> {
    packets.map_values(|p: PacketModel| update_news(id, p))
}

/// The news that a client is in.
pub open spec fn in_news(id: ClientID, protocol: u8) -> NewsModel {
    NewsModel { id, connection: ConnectionModel::Authenticated(protocol) }
}

/// The news that a client is gone.
pub open spec fn gone_news(id: ClientID) -> NewsModel {
    NewsModel { id, connection: ConnectionModel::Disconnected }
}

/// What comes of a client that is turned away.
pub open spec fn turned_away(id: ClientID, error: AuthError) -> (SessionModel, TurnModel) {
    (
        SessionModel { id, phase: PhaseModel::Closed },
        TurnModel {
            next: NextModel::TurnAway(error, AUTH_FAILED@),
            news: seq![gone_news(id)],
            malformed: false,
        },
    )
}

/// What comes of something about which the server hears nothing.
pub open spec fn quiet(id: ClientID, phase: PhaseModel, next: NextModel) -> (
    SessionModel,
    TurnModel,
) {
    (
        SessionModel { id, phase },
        TurnModel { next, news: Seq::empty(), malformed: false },
    )
}

/// A connection after something happened to it, and what comes of it.
pub open spec fn after_happening(m: SessionModel, h: HappeningModel) -> (SessionModel, TurnModel) {
    let id = m.id;
    match (m.phase, h) {
        (PhaseModel::Greeting(received), HappeningModel::Read(None)) => turned_away(
            id,
            AuthError::Connection,
        ),
        (PhaseModel::Greeting(received), HappeningModel::Read(Some(bytes))) => {
            if bytes.len() == 0 {
                turned_away(id, AuthError::ClosedByClient)
            } else {
                match verdict(received + bytes) {
                    Verdict::NeedMore => quiet(
                        id,
                        PhaseModel::Greeting(received + bytes),
                        NextModel::Read,
                    ),
                    Verdict::Welcome(protocol) => quiet(
                        id,
                        PhaseModel::Replying(protocol),
                        NextModel::Reply(welcome_bytes(protocol)),
                    ),
                    Verdict::Refused(error) => turned_away(id, error),
                }
            }
        },
        (PhaseModel::Replying(protocol), HappeningModel::ReplySent(sent)) => if sent {
            (
                SessionModel { id, phase: PhaseModel::Open(Seq::empty()) },
                TurnModel {
                    next: NextModel::Read,
                    news: seq![in_news(id, protocol)],
                    malformed: false,
                },
            )
        } else {
            turned_away(id, AuthError::HsResponse)
        },
        (PhaseModel::Open(held), HappeningModel::Read(read)) => if read is None || read->0.len()
            == 0 {
            (
                SessionModel { id, phase: PhaseModel::Closed },
                TurnModel {
                    next: NextModel::Close,
                    news: seq![gone_news(id)],
                    malformed: false,
                },
            )
        } else {
            let d = held + read->0;
            (
                SessionModel { id, phase: PhaseModel::Open(kept(d)) },
                TurnModel {
                    next: NextModel::Read,
                    news: updates(id, frames(d)),
                    malformed: malformed(d),
                },
            )
        },
        _ => quiet(id, m.phase, NextModel::Close),
    }
}

/// Whether something can happen to a connection that does what it is told:
/// it replies when it is to reply, and reads what there is room for.
pub open spec fn expects(m: SessionModel, h: HappeningModel) -> bool {
    match (m.phase, h) {
        (PhaseModel::Greeting(_), HappeningModel::Read(_)) => true,
        (PhaseModel::Replying(_), HappeningModel::ReplySent(_)) => true,
        (PhaseModel::Open(held), HappeningModel::Read(read)) => read is Some ==> held.len()
            + read->0.len() <= BUFFER_SIZE,
        _ => false,
    }
}

/// A connection after things happened to it, one after the other, and all news
/// of it.
pub open spec fn after_all(m: SessionModel, hs: Seq<HappeningModel>) -> (
    SessionModel,
    Seq<NewsModel>,
)
    decreases hs.len(),
{
    if hs.len() == 0 {
        (m, Seq::empty())
    } else {
        let (next, turn) = after_happening(m, hs[0]);
        let (end, later) = after_all(next, hs.drop_first());
        (end, turn.news + later)
    }
}

/// Reads that brought bytes.
pub open spec fn reads(chunks: Seq<Seq<u8>>) -> Seq<HappeningModel> {
    chunks.map_values(|c: Seq<u8>| HappeningModel::Read(Some(c)))
}

/// The read that finds the connection closed by the client.
pub open spec fn closing() -> HappeningModel {
    HappeningModel::Read(Some(Seq::empty()))
}

impl Session {
    /// What holds of every connection: its bytes fit into the buffer.
    pub open spec fn wf(&self) -> bool {
        self@.phase matches PhaseModel::Open(held) ==> held.len() <= BUFFER_SIZE
    }

    /// A connection over which nothing has come in yet.
    pub fn new(id: ClientID) -> (s: Session)
        ensures
            s.wf(),
            s@ == (SessionModel { id, phase: PhaseModel::Greeting(Seq::empty()) }),
    {
        Session { id, phase: Phase::Greeting(Handshake::new()) }
    }

    /// How many bytes the next read may bring at most.
    pub fn room(&self) -> (r: usize)
        requires
            self.wf(),
        ensures
            r == match self@.phase {
                PhaseModel::Greeting(_) => GREETING_READ as int,
                PhaseModel::Open(held) => BUFFER_SIZE - held.len(),
                _ => 0,
            },
    {
        match &self.phase {
            Phase::Greeting(_) => GREETING_READ,
            Phase::Open(buffer) => buffer.room(),
            _ => 0,
        }
    }

    /// Takes note of what happened and says what comes of it.
    pub fn advance(&mut self, happening: Happening) -> (turn: Turn)
        requires
            old(self).wf(),
            expects(old(self)@, happening@),
        ensures
            final(self).wf(),
            (final(self)@, turn@) == after_happening(old(self)@, happening@),
    {
        let id: ClientID = self.id;
        let mut phase = Phase::Closed;
        std::mem::swap(&mut phase, &mut self.phase);
        match (phase, happening) {
            (Phase::Greeting(mut handshake), Happening::Read(read)) => match handshake.advance(
                read,
            ) {
                Step::Read => {
                    self.phase = Phase::Greeting(handshake);
                    quiet_turn(Next::Read)
                },
                Step::Reply(protocol, reply) => {
                    self.phase = Phase::Replying(protocol);
                    quiet_turn(Next::Reply(reply))
                },
                Step::Refuse(error) => turn_away(id, error),
            },
            (Phase::Replying(protocol), Happening::ReplySent(sent)) => {
                match Handshake::finish(protocol, sent) {
                    Ok(protocol) => {
                        self.phase = Phase::Open(FrameBuffer::new());
                        lone_turn(Next::Read, MpscData(id, Connection::Authenticated(protocol)))
                    },
                    Err(error) => turn_away(id, error),
                }
            },
            (Phase::Open(mut buffer), Happening::Read(Read::Bytes(bytes))) => {
                if bytes.len() == 0 {
                    return lone_turn(Next::Close, MpscData(id, Connection::Disconnected));
                }
                let fed = buffer.feed(&bytes);
                self.phase = Phase::Open(buffer);
                let mut news: Vec<MpscData> = Vec::new();
                let mut packets = fed.packets;
                let ghost all = packet_models(packets@);
                let ghost m = self@;
                assert(news_models(news@) + updates(id, all) =~= updates(id, all));
                while packets.len() > 0
                    invariant
                        self@ == m,
                        self.wf(),
                        news_models(news@) + updates(id, packet_models(packets@)) == updates(
                            id,
                            all,
                        ),
                    decreases packets@.len(),
                {
                    let ghost rest = packets@;
                    let ghost so_far = news@;
                    let packet = packets.remove(0);
                    news.push(MpscData(id, Connection::Updated(packet)));
                    proof {
                        let first = news@.last()@;
                        assert(packet_models(packets@) =~= packet_models(rest).drop_first());
                        assert(packet_models(rest)[0] == packet@);
                        assert(news_models(news@) =~= news_models(so_far).push(first));
                        assert(updates(id, packet_models(rest)) =~= seq![first] + updates(
                            id,
                            packet_models(packets@),
                        ));
                        assert(news_models(news@) + updates(id, packet_models(packets@))
                            =~= news_models(so_far) + updates(id, packet_models(rest)));
                    }
                }
                assert(news_models(news@) =~= updates(id, all));
                Turn { next: Next::Read, news, malformed: fed.malformed }
            },
            (_, _) => lone_turn(Next::Close, MpscData(id, Connection::Disconnected)),
        }
    }
}

fn quiet_turn(next: Next) -> (turn: Turn)
    ensures
        turn@ == (TurnModel { next: next@, news: Seq::empty(), malformed: false }),
{
    let turn = Turn { next, news: Vec::new(), malformed: false };
    assert(turn@.news =~= Seq::empty());
    turn
}

fn lone_turn(next: Next, news: MpscData) -> (turn: Turn)
    ensures
        turn@ == (TurnModel { next: next@, news: seq![news@], malformed: false }),
{
    let ghost n = news@;
    let mut all: Vec<MpscData> = Vec::new();
    all.push(news);
    let turn = Turn { next, news: all, malformed: false };
    assert(turn@.news =~= seq![n]);
    turn
}

fn turn_away(id: ClientID, error: AuthError) -> (turn: Turn)
    ensures
        turn@ == turned_away(id, error).1,
{
    let words = copy_range(&AUTH_FAILED, 0, 21);
    assert(words@ =~= AUTH_FAILED@);
    lone_turn(Next::TurnAway(error, words), MpscData(id, Connection::Disconnected))
}

proof fn lemma_open_reads(id: ClientID, held: Seq<u8>, chunks: Seq<Seq<u8>>)
    requires
        forall|i: int| 0 <= i < chunks.len() ==> (#[trigger] chunks[i]).len() > 0,
    ensures
        ({
            let m = SessionModel { id, phase: PhaseModel::Open(held) };
            let (end, news) = after_all(m, reads(chunks).push(closing()));
            &&& end.phase == PhaseModel::Closed
            &&& news == updates(id, fed(held, chunks).0).push(gone_news(id))
        }),
    decreases chunks.len(),
{
    let m = SessionModel { id, phase: PhaseModel::Open(held) };
    let hs = reads(chunks).push(closing());
    let (end, news) = after_all(m, hs);
    if chunks.len() == 0 {
        let next = after_happening(m, hs[0]).0;
        assert(after_all(next, hs.drop_first()) == (next, Seq::<NewsModel>::empty()));
        assert(news =~= updates(id, fed(held, chunks).0).push(gone_news(id)));
    } else {
        let d = held + chunks[0];
        let rest = chunks.drop_first();
        assert(chunks[0].len() > 0);
        assert(hs[0] == HappeningModel::Read(Some(chunks[0])));
        assert(hs.drop_first() =~= reads(rest).push(closing()));
        assert forall|i: int| 0 <= i < rest.len() implies (#[trigger] rest[i]).len() > 0 by {
            assert(rest[i] == chunks[i + 1]);
        }
        lemma_open_reads(id, kept(d), rest);
        let later = fed(kept(d), rest).0;
        assert(news =~= updates(id, frames(d) + later).push(gone_news(id)));
    }
}

/// Of a client that is let in and sends frames until it closes the connection
/// the server hears that it is in, each packet once and in order, and that it
/// is gone, and nothing else, however the frames are cut into reads.
pub proof fn lemma_news_of_a_connection(
    id: ClientID,
    protocol: u8,
    fs: Seq<Seq<u8>>,
    chunks: Seq<Seq<u8>>,
)
    requires
        forall|i: int| 0 <= i < fs.len() ==> is_frame(#[trigger] fs[i]),
        forall|i: int| 0 <= i < chunks.len() ==> (#[trigger] chunks[i]).len() > 0,
        joined(chunks) == joined(fs),
    ensures
        ({
            let m = SessionModel { id, phase: PhaseModel::Replying(protocol) };
            let hs = seq![HappeningModel::ReplySent(true)] + reads(chunks) + seq![closing()];
            let (end, news) = after_all(m, hs);
            &&& end.phase == PhaseModel::Closed
            &&& news == seq![in_news(id, protocol)] + fs.map_values(
                |f: Seq<u8>| update_news(id, packet_on_wire(f)),
            ) + seq![gone_news(id)]
        }),
{
    let m = SessionModel { id, phase: PhaseModel::Replying(protocol) };
    let hs = seq![HappeningModel::ReplySent(true)] + reads(chunks) + seq![closing()];
    lemma_frames_of_frames(fs);
    lemma_chunking_is_irrelevant(chunks);
    lemma_open_reads(id, Seq::empty(), chunks);
    assert(hs.drop_first() =~= reads(chunks).push(closing()));
    let packets = fs.map_values(|f: Seq<u8>| packet_on_wire(f));
    assert(fed(Seq::empty(), chunks).0 == packets);
    assert(after_all(m, hs).1 =~= seq![in_news(id, protocol)] + fs.map_values(
        |f: Seq<u8>| update_news(id, packet_on_wire(f)),
    ) + seq![gone_news(id)]);
}

proof fn lemma_greeting_reads(id: ClientID, received: Seq<u8>, chunks: Seq<Seq<u8>>)
    requires
        chunks.len() > 0,
        forall|i: int| 0 <= i < chunks.len() ==> (#[trigger] chunks[i]).len() > 0,
        received + joined(chunks) == HS_IN@ + seq![0u8, PROTOCOL_VERSION],
    ensures
        after_all(
            SessionModel { id, phase: PhaseModel::Greeting(received) },
            reads(chunks),
        ) == (
            SessionModel { id, phase: PhaseModel::Replying(PROTOCOL_VERSION) },
            Seq::<NewsModel>::empty(),
        ),
    decreases chunks.len(),
{
    let hello = HS_IN@ + seq![0u8, PROTOCOL_VERSION];
    let m = SessionModel { id, phase: PhaseModel::Greeting(received) };
    let hs = reads(chunks);
    let rest = chunks.drop_first();
    let now = received + chunks[0];
    assert(chunks[0].len() > 0);
    assert(hs[0] == HappeningModel::Read(Some(chunks[0])));
    assert(hs.drop_first() =~= reads(rest));
    assert(now + joined(rest) =~= hello);
    lemma_who_is_let_in(hello);
    assert(hello.is_prefix_of(hello)) by {
        assert(hello =~= hello.subrange(0, hello.len() as int));
    }
    if rest.len() == 0 {
        assert(now =~= hello);
        let next = after_happening(m, hs[0]).0;
        assert(after_all(next, hs.drop_first()) == (next, Seq::<NewsModel>::empty()));
        assert(after_all(m, hs).1 =~= Seq::<NewsModel>::empty());
    } else {
        assert(rest[0] == chunks[1]);
        assert(chunks[1].len() > 0);
        assert(joined(rest).len() > 0);
        if verdict(now) != Verdict::NeedMore {
            lemma_verdict_is_final(now, joined(rest));
            lemma_who_is_let_in(now);
        }
        assert(verdict(now) == Verdict::NeedMore);
        assert forall|i: int| 0 <= i < rest.len() implies (#[trigger] rest[i]).len() > 0 by {
            assert(rest[i] == chunks[i + 1]);
        }
        lemma_greeting_reads(id, now, rest);
        assert(after_all(m, hs).1 =~= Seq::<NewsModel>::empty());
    }
}

/// A client that greets as it should is about to be let in, however its
/// greeting is cut into reads, and the server has heard nothing of it yet.
pub proof fn lemma_greeting_is_heard(id: ClientID, chunks: Seq<Seq<u8>>)
    requires
        forall|i: int| 0 <= i < chunks.len() ==> (#[trigger] chunks[i]).len() > 0,
        joined(chunks) == HS_IN@ + seq![0u8, PROTOCOL_VERSION],
    ensures
        after_all(
            SessionModel { id, phase: PhaseModel::Greeting(Seq::empty()) },
            reads(chunks),
        ) == (
            SessionModel { id, phase: PhaseModel::Replying(PROTOCOL_VERSION) },
            Seq::<NewsModel>::empty(),
        ),
{
    assert(Seq::<u8>::empty() + joined(chunks) =~= joined(chunks));
    assert(joined(chunks).len() == 38);
    lemma_greeting_reads(id, Seq::empty(), chunks);
}

/// Whether news of one connection come in a proper order: first that it is in,
/// if it is, and last that it is gone; packets come only from a client that is
/// in.
pub open spec fn in_order(news: Seq<NewsModel>, id: ClientID, already_in: bool) -> bool {
    forall|i: int|
        0 <= i < news.len() ==> {
            let n = #[trigger] news[i];
            &&& n.id == id
            &&& n.connection is Authenticated || n.connection is Updated || n.connection
                is Disconnected
            &&& n.connection is Authenticated ==> i == 0 && !already_in
            &&& n.connection is Updated ==> already_in || news[0].connection is Authenticated
            &&& n.connection is Disconnected ==> i == news.len() - 1
        }
}

/// Whatever happens to a connection, news of it come in a proper order, and a
/// connection that is closed stays closed and makes no more news.
pub proof fn lemma_news_come_in_order(m: SessionModel, hs: Seq<HappeningModel>)
    ensures
        in_order(after_all(m, hs).1, m.id, m.phase is Open),
        m.phase is Closed ==> after_all(m, hs) == (m, Seq::<NewsModel>::empty()),
    decreases hs.len(),
{
    let (end, news) = after_all(m, hs);
    if hs.len() > 0 {
        let (next, turn) = after_happening(m, hs[0]);
        let rest = hs.drop_first();
        lemma_news_come_in_order(next, rest);
        let later = after_all(next, rest).1;
        assert(news == turn.news + later);
        assert(next.id == m.id);
        if next.phase is Closed {
            assert(news =~= turn.news);
        }
        assert forall|i: int| 0 <= i < news.len() implies ({
            let n = #[trigger] news[i];
            &&& n.id == m.id
            &&& n.connection is Authenticated || n.connection is Updated || n.connection
                is Disconnected
            &&& n.connection is Authenticated ==> i == 0 && !(m.phase is Open)
            &&& n.connection is Updated ==> m.phase is Open || news[0].connection
                is Authenticated
            &&& n.connection is Disconnected ==> i == news.len() - 1
        }) by {
            let k = turn.news.len();
            if i < k {
                assert(news[i] == turn.news[i]);
            } else {
                assert(news[i] == later[i - k]);
                if k > 0 {
                    assert(news[0] == turn.news[0]);
                } else {
                    assert(news[0] == later[0]);
                }
            }
        }
    }
}

} // verus!
