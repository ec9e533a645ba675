//! Connected clients and the packets on their way to them.
//!
//! A packet takes one of three lanes. A `SERVER_TIME` goes into a slot that
//! keeps only the latest one. What may be lost is offered to the client's
//! queue and dropped where the queue has no room. Everything else is offered
//! to the queue too, but what the queue refuses is kept for another try.

use tokio::sync::mpsc;
use vstd::prelude::*;

use crate::protocol::{lossy_realtime, wire, Action, Packet, PacketModel};

verus! {

/// The only version of the protocol that the server speaks.
pub const PROTOCOL_VERSION: u8 = 3;

/// The number of a connection.
pub type ClientID = usize;

/// Something that happened to a client.
pub struct MpscData(pub ClientID, pub Connection);

/// The state of a connection, or news from it.
pub enum Connection {
    Connected,
    /// Let in, with the version of the protocol that the client speaks.
    Authenticated(u8),
    Disconnected,
    Updated(Packet),
}

/// The value of a [`Connection`].
#[verifier::ext_equal]
pub enum ConnectionModel {
    Connected,
    Authenticated(u8),
    Disconnected,
    Updated(PacketModel),
}

impl View for Connection {
    type V = ConnectionModel;

    open spec fn view(&self) -> ConnectionModel {
        match *self {
            Connection::Connected => ConnectionModel::Connected,
            Connection::Authenticated(protocol) => ConnectionModel::Authenticated(protocol),
            Connection::Disconnected => ConnectionModel::Disconnected,
            Connection::Updated(packet) => ConnectionModel::Updated(packet@),
        }
    }
}

/// The value of an [`MpscData`].
#[verifier::ext_equal]
pub struct NewsModel {
    pub id: ClientID,
    pub connection: ConnectionModel,
}

impl View for MpscData {
    type V = NewsModel;

    open spec fn view(&self) -> NewsModel {
        NewsModel { id: self.0, connection: self.1@ }
    }
}

impl PartialEq for Connection {
    fn eq(&self, other: &Self) -> (r: bool) {
        match (self, other) {
            (Connection::Authenticated(_), Connection::Authenticated(_)) => true,
            (Connection::Connected, Connection::Connected) => true,
            (Connection::Disconnected, Connection::Disconnected) => true,
            _ => false,
        }
    }
}

impl vstd::std_specs::cmp::PartialEqSpecImpl for Connection {
    open spec fn obeys_eq_spec() -> bool {
        true
    }

    /// Two connections are equal when they are in the same state, whatever
    /// the version; news is equal to nothing.
    open spec fn eq_spec(&self, other: &Self) -> bool {
        match (*self, *other) {
            (Connection::Authenticated(_), Connection::Authenticated(_)) => true,
            (Connection::Connected, Connection::Connected) => true,
            (Connection::Disconnected, Connection::Disconnected) => true,
            _ => false,
        }
    }
}

/// The sending end of a queue of the `tokio` crate.
#[verifier::external_type_specification]
#[verifier::external_body]
#[verifier::reject_recursive_types(T)]
pub struct ExSender<T>(tokio::sync::mpsc::Sender<T>);

/// The receiving end of a queue of the `tokio` crate.
#[verifier::external_type_specification]
#[verifier::external_body]
#[verifier::reject_recursive_types(T)]
pub struct ExReceiver<T>(tokio::sync::mpsc::Receiver<T>);

/// What has been offered to a queue through this sending end, in order, each
/// message with what became of it: 0 where the queue took it, 1 where the
/// queue was full, 2 where the queue was closed.
pub uninterp spec fn offers(queue: mpsc::Sender<Vec<u8>>) -> Seq<(Seq<u8>, int)>;

/// How many messages a queue was made to hold.
pub uninterp spec fn limit(queue: mpsc::Sender<Vec<u8>>) -> nat;

/// Which queue a sending end belongs to.
pub uninterp spec fn queue_of(queue: mpsc::Sender<Vec<u8>>) -> int;

/// Which queue a receiving end belongs to.
pub uninterp spec fn source_of(end: mpsc::Receiver<Vec<u8>>) -> int;

/// What became of a message that was offered to a queue.
pub enum Offer {
    Taken,
    /// The queue was full; the message comes back.
    Full(Vec<u8>),
    /// The queue was closed; the message comes back.
    Closed(Vec<u8>),
}

/// An outcome as it stands among the [`offers`].
pub open spec fn outcome(offer: Offer) -> int {
    match offer {
        Offer::Taken => 0,
        Offer::Full(_) => 1,
        Offer::Closed(_) => 2,
    }
}

/// Calls `tokio::sync::mpsc::Sender::try_send`. The message is offered once
/// and at once, and the sending end stays with its queue; a message that the
/// queue does not take comes back unchanged.
/// Which of the three happens depends on the task at the other end and is not
/// stated.
#[verifier::external_body]
fn try_send(queue: &mut mpsc::Sender<Vec<u8>>, data: Vec<u8>) -> (r: Offer)
    ensures
        offers(*final(queue)) == offers(*old(queue)).push((data@, outcome(r))),
        limit(*final(queue)) == limit(*old(queue)),
        queue_of(*final(queue)) == queue_of(*old(queue)),
        r matches Offer::Full(back) ==> back@ == data@,
        r matches Offer::Closed(back) ==> back@ == data@,
{
    match queue.try_send(data) {
        Ok(()) => Offer::Taken,
        Err(mpsc::error::TrySendError::Full(back)) => Offer::Full(back),
        Err(mpsc::error::TrySendError::Closed(back)) => Offer::Closed(back),
    }
}

/// Calls `tokio::sync::mpsc::channel`, which panics on a capacity of zero or
/// of more than `usize::MAX >> 3`. The new queue holds as many messages as it
/// was asked to; nothing has been offered to it. The two ends belong to
/// that queue.
#[verifier::external_body]
fn channel(capacity: usize) -> (r: (mpsc::Sender<Vec<u8>>, mpsc::Receiver<Vec<u8>>))
    requires
        0 < capacity <= 0x1FFF_FFFF,
    ensures
        offers(r.0) == Seq::<(Seq<u8>, int)>::empty(),
        limit(r.0) == capacity,
        queue_of(r.0) == source_of(r.1),
{
    mpsc::channel(capacity)
}

/// Calls `rand::random`. Nothing is stated of the number: it is chance.
#[verifier::external_body]
fn random_id() -> ClientID {
    rand::random()
}

/// How many packets wait for a client at most.
pub const QUEUE_CAPACITY: usize = 1000;

/// The way a packet takes to its client.
#[derive(Clone, Copy, Debug, PartialEq, Eq, Structural)]
pub enum Lane {
    /// Into the slot that keeps only the latest.
    Latest,
    /// Into the queue, or nowhere.
    Lossy,
    /// Into the queue, now or later.
    Reliable,
}

/// The lane that packets of an action take.
pub open spec fn lane_of(action: Action) -> Lane {
    if action == Action::SERVER_TIME {
        Lane::Latest
    } else if lossy_realtime(action) {
        Lane::Lossy
    } else {
        Lane::Reliable
    }
}

/// A packet sent to a client, and its lane.
#[verifier::ext_equal]
pub struct Sent {
    pub lane: Lane,
    pub packet: PacketModel,
}

/// A packet that a queue refused.
pub struct Refusal {
    pub lane: Lane,
    pub action: Action,
    pub data: Vec<u8>,
    /// Whether the queue was closed, and not merely full.
    pub closed: bool,
}

/// The value of a [`Refusal`].
#[verifier::ext_equal]
pub struct RefusalModel {
    pub lane: Lane,
    pub action: Action,
    pub data: Seq<u8>,
    pub closed: bool,
}

impl View for Refusal {
    type V = RefusalModel;

    open spec fn view(&self) -> RefusalModel {
        RefusalModel {
            lane: self.lane,
            action: self.action,
            data: self.data@,
            closed: self.closed,
        }
    }
}

/// What to do about a packet that a queue refused.
pub enum Fallback {
    /// Wait until the queue has room and send these bytes then.
    SendLater(Vec<u8>),
    /// Report that a packet is lost that should not have been.
    ReportLost,
    /// Count a dropped packet.
    CountDrop,
}

/// The value of a [`Fallback`].
#[verifier::ext_equal]
pub enum FallbackModel {
    SendLater(Seq<u8>),
    ReportLost,
    CountDrop,
}

impl View for Fallback {
    type V = FallbackModel;

    open spec fn view(&self) -> FallbackModel {
        match *self {
            Fallback::SendLater(data) => FallbackModel::SendLater(data@),
            Fallback::ReportLost => FallbackModel::ReportLost,
            Fallback::CountDrop => FallbackModel::CountDrop,
        }
    }
}

/// What to do about a refused packet.
pub open spec fn fallback_for(r: RefusalModel) -> FallbackModel {
    if r.lane != Lane::Reliable {
        FallbackModel::CountDrop
    } else if r.closed {
        FallbackModel::ReportLost
    } else {
        FallbackModel::SendLater(r.data)
    }
}

impl Refusal {
    /// What to do about the refused packet: wait with what must arrive, unless
    /// the queue is closed; give up what may be lost.
    pub fn fallback(self) -> (r: Fallback)
        ensures
            self.lane != Lane::Reliable ==> r == Fallback::CountDrop,
            self.lane == Lane::Reliable && self.closed ==> r == Fallback::ReportLost,
            self.lane == Lane::Reliable && !self.closed ==> (r matches Fallback::SendLater(data)
                && data@ == self.data@),
            r@ == fallback_for(self@),
    {
        if self.lane != Lane::Reliable {
            Fallback::CountDrop
        } else if self.closed {
            Fallback::ReportLost
        } else {
            Fallback::SendLater(self.data)
        }
    }
}

/// How long, in milliseconds, a report of dropped packets keeps others back.
pub const LOG_INTERVAL_MS: u64 = 5_000;

/// What is known of the packets that were dropped.
#[derive(Clone, Copy, Debug, PartialEq, Eq, Structural)]
pub struct LossyDropLog {
    /// When a drop was last reported, 0 where never.
    pub last_log_ms: u64,
    /// How many drops have gone unreported since.
    pub suppressed: u64,
}

/// Whether a drop at `now_ms` is reported.
pub open spec fn drop_is_reported(log: LossyDropLog, now_ms: u64) -> bool {
    log.last_log_ms == 0 || now_ms - log.last_log_ms >= LOG_INTERVAL_MS
}

/// What is known after a drop at `now_ms`. The count starts again at zero
/// when it no longer fits.
pub open spec fn after_drop(log: LossyDropLog, now_ms: u64) -> LossyDropLog {
    if drop_is_reported(log, now_ms) {
        LossyDropLog { last_log_ms: now_ms, suppressed: 0 }
    } else if log.suppressed == u64::MAX {
        LossyDropLog { suppressed: 0, ..log }
    } else {
        LossyDropLog { suppressed: (log.suppressed + 1) as u64, ..log }
    }
}

impl LossyDropLog {
    /// Takes note of a dropped packet. Where the drop is to be reported, the
    /// result is the number of drops that went unreported before it.
    pub fn record(&mut self, now_ms: u64) -> (r: Option<u64>)
        ensures
            *final(self) == after_drop(*old(self), now_ms),
            r == (if drop_is_reported(*old(self), now_ms) {
                Some(old(self).suppressed)
            } else {
                None
            }),
    {
        if self.last_log_ms != 0 && (now_ms < self.last_log_ms || now_ms - self.last_log_ms
            < LOG_INTERVAL_MS) {
            self.suppressed = if self.suppressed == u64::MAX {
                0
            } else {
                self.suppressed + 1
            };
            return None;
        }
        let suppressed: u64 = self.suppressed;
        self.last_log_ms = now_ms;
        self.suppressed = 0;
        Some(suppressed)
    }
}

/// What is known after drops at `times`, and how many of them were reported,
/// either in a report of their own or as a number in one.
pub open spec fn after_drops(log: LossyDropLog, times: Seq<u64>) -> (LossyDropLog, nat)
    decreases times.len(),
{
    if times.len() == 0 {
        (log, 0)
    } else {
        let (before, reported) = after_drops(log, times.drop_last());
        let now = times.last();
        if drop_is_reported(before, now) {
            (after_drop(before, now), reported + 1 + before.suppressed as nat)
        } else {
            (after_drop(before, now), reported)
        }
    }
}

/// No drop goes missing: each has been reported or is among those that the
/// next report will count.
pub proof fn lemma_every_drop_is_counted(log: LossyDropLog, times: Seq<u64>)
    requires
        log.suppressed + times.len() <= u64::MAX,
    ensures
        after_drops(log, times).1 + after_drops(log, times).0.suppressed == times.len()
            + log.suppressed,
    decreases times.len(),
{
    if times.len() > 0 {
        lemma_every_drop_is_counted(log, times.drop_last());
    }
}

/// Puts `data` into the slot; whether something was waiting there is the
/// result.
pub fn replace_latest_server_time(slot: &mut Option<Vec<u8>>, data: Vec<u8>) -> (r: bool)
    ensures
        *final(slot) == Some(data),
        r == (*old(slot) is Some),
{
    let replaced: bool = slot.is_some();
    *slot = Some(data);
    replaced
}

/// Takes what waits in the slot, which is empty afterwards.
pub fn take_latest_server_time(slot: &mut Option<Vec<u8>>) -> (r: Option<Vec<u8>>)
    ensures
        r == *old(slot),
        *final(slot) == None::<Vec<u8>>,
{
    slot.take()
}

/// A connected client.
pub struct Client {
    /// Uniq ClientID
    pub id: ClientID,
    pub connection: Connection,
    pub protocol: u8,
    /// The queue of packets for the client.
    pub tx_client: mpsc::Sender<Vec<u8>>,
    /// The latest `SERVER_TIME` that is not on its way yet.
    pub latest_server_time: Option<Vec<u8>>,
    /// The packets that the queue refused and that nobody has seen to yet.
    pub refused: Vec<Refusal>,
    pub lossy_drops: LossyDropLog,
    /// All packets sent to the client.
    pub log: Ghost<Seq<Sent>>,
    /// How much had been offered to the queue before the first of them.
    pub base: Ghost<nat>,
    /// How many refused packets have been seen to.
    pub drained: Ghost<nat>,
}

/// The value of a [`Client`].
#[verifier::ext_equal]
pub struct ClientModel {
    pub id: ClientID,
    pub connection: Connection,
    pub protocol: u8,
    /// The queue of packets for the client.
    pub queue: int,
    pub latest: Option<Seq<u8>>,
    pub lossy_drops: LossyDropLog,
    pub log: Seq<Sent>,
    pub base: nat,
    pub drained: nat,
}

/// The packets of `log` that went to the queue.
pub open spec fn queued(log: Seq<Sent>) -> Seq<Sent> {
    log.filter(|s: Sent| s.lane != Lane::Latest)
}

/// The packets of `sent` that the queue refused, as `outcomes` have it.
pub open spec fn refusals(outcomes: Seq<(Seq<u8>, int)>, sent: Seq<Sent>) -> Seq<RefusalModel>
    decreases outcomes.len(),
{
    if outcomes.len() == 0 || sent.len() == 0 {
        Seq::empty()
    } else {
        let before = refusals(outcomes.drop_last(), sent.drop_last());
        if outcomes.last().1 == 0 {
            before
        } else {
            before.push(
                RefusalModel {
                    lane: sent.last().lane,
                    action: sent.last().packet.action,
                    data: wire(sent.last().packet),
                    closed: outcomes.last().1 == 2,
                },
            )
        }
    }
}

/// Refused packets, as values.
pub open spec fn refusal_models(refused: Seq<Refusal>) -> Seq<RefusalModel> {
    refused.map_values(|r: Refusal| r@)
}

/// A client to whom a packet has been sent over a lane.
pub open spec fn after_send_on(c: ClientModel, lane: Lane, packet: PacketModel) -> ClientModel {
    ClientModel {
        latest: if lane == Lane::Latest {
            Some(wire(packet))
        } else {
            c.latest
        },
        log: c.log.push(Sent { lane, packet }),
        ..c
    }
}

/// A client to whom a packet has been sent.
pub open spec fn after_send(c: ClientModel, packet: PacketModel) -> ClientModel {
    after_send_on(c, lane_of(packet.action), packet)
}

impl View for Client {
    type V = ClientModel;

    open spec fn view(&self) -> ClientModel {
        ClientModel {
            id: self.id,
            connection: self.connection,
            protocol: self.protocol,
            queue: queue_of(self.tx_client),
            latest: match self.latest_server_time {
                Some(data) => Some(data@),
                None => None,
            },
            lossy_drops: self.lossy_drops,
            log: self.log@,
            base: self.base@,
            drained: self.drained@,
        }
    }
}

proof fn lemma_queued_push(log: Seq<Sent>, s: Sent)
    ensures
        queued(log.push(s)) == if s.lane != Lane::Latest {
            queued(log).push(s)
        } else {
            queued(log)
        },
{
    reveal(Seq::filter);
    assert(log.push(s).drop_last() =~= log);
}

proof fn lemma_refusals_len(outcomes: Seq<(Seq<u8>, int)>, sent: Seq<Sent>)
    ensures
        refusals(outcomes, sent).len() <= outcomes.len(),
    decreases outcomes.len(),
{
    if outcomes.len() > 0 && sent.len() > 0 {
        lemma_refusals_len(outcomes.drop_last(), sent.drop_last());
    }
}

impl Client {
    /// What has been offered to the queue for this client.
    pub open spec fn outcomes(&self) -> Seq<(Seq<u8>, int)> {
        offers(self.tx_client).skip(self.base@ as int)
    }

    /// The queue was offered exactly the packets sent over it, in order, and
    /// what it refused waits in `refused`, but for what has been seen to.
    pub open spec fn wf(&self) -> bool {
        let sent = queued(self.log@);
        &&& self.base@ <= offers(self.tx_client).len()
        &&& self.outcomes().len() == sent.len()
        &&& forall|i: int|
            0 <= i < sent.len() ==> (#[trigger] self.outcomes()[i]).0 == wire(sent[i].packet)
        &&& self.drained@ <= refusals(self.outcomes(), sent).len()
        &&& refusal_models(self.refused@) == refusals(self.outcomes(), sent).skip(
            self.drained@ as int,
        )
    }

    /// A client on the queue `tx_client`, known as `id`.
    pub fn with_queue(id: ClientID, tx_client: mpsc::Sender<Vec<u8>>) -> (c: Client)
        ensures
            c.wf(),
            c@ == (ClientModel {
                id,
                connection: Connection::Connected,
                protocol: 0,
                queue: queue_of(tx_client),
                latest: None,
                lossy_drops: LossyDropLog { last_log_ms: 0, suppressed: 0 },
                log: Seq::empty(),
                base: offers(tx_client).len(),
                drained: 0,
            }),
            c.tx_client == tx_client,
    {
        let c = Client {
            id,
            connection: Connection::Connected,
            protocol: 0,
            tx_client,
            latest_server_time: None,
            refused: Vec::new(),
            lossy_drops: LossyDropLog { last_log_ms: 0, suppressed: 0 },
            log: Ghost(Seq::empty()),
            base: Ghost(offers(tx_client).len()),
            drained: Ghost(0),
        };
        proof {
            reveal(Seq::filter);
            assert(queued(Seq::<Sent>::empty()) =~= Seq::empty());
            assert(refusal_models(c.refused@) =~= refusals(c.outcomes(), queued(c.log@)).skip(0));
        }
        c
    }

    /// A new client, under a number drawn at random, with an empty queue; the
    /// other end of the queue is for whoever writes to the connection.
    pub fn new() -> (r: (Client, mpsc::Receiver<Vec<u8>>))
        ensures
            r.0.wf(),
            r.0@ == (ClientModel {
                id: r.0.id,
                connection: Connection::Connected,
                protocol: 0,
                queue: source_of(r.1),
                latest: None,
                lossy_drops: LossyDropLog { last_log_ms: 0, suppressed: 0 },
                log: Seq::empty(),
                base: 0,
                drained: 0,
            }),
            offers(r.0.tx_client) == Seq::<(Seq<u8>, int)>::empty(),
            limit(r.0.tx_client) == QUEUE_CAPACITY,
    {
        let id = random_id();
        let (tx_client, rx_server) = channel(QUEUE_CAPACITY);
        (Client::with_queue(id, tx_client), rx_server)
    }

    /// Sends `packet` to the client, over the lane of its action.
    pub fn send(&mut self, packet: &Packet)
        requires
            old(self).wf(),
        ensures
            final(self).wf(),
            final(self)@ == after_send(old(self)@, packet@),
            limit(final(self).tx_client) == limit(old(self).tx_client),
            lane_of(packet.action) == Lane::Latest ==> final(self).outcomes() == old(
                self,
            ).outcomes(),
            lane_of(packet.action) != Lane::Latest ==> final(self).outcomes().drop_last() == old(
                self,
            ).outcomes(),
    {
        if packet.action == Action::SERVER_TIME {
            self.send_latest_server_time(packet);
        } else if packet.action.is_lossy_realtime() {
            self.send_lossy(packet);
        } else {
            self.send_reliable(packet);
        }
    }

    /// Offers `packet` to the queue; if the queue is full, the packet is kept
    /// for another try.
    pub fn send_reliable(&mut self, packet: &Packet)
        requires
            old(self).wf(),
        ensures
            final(self).wf(),
            final(self)@ == after_send_on(old(self)@, Lane::Reliable, packet@),
            limit(final(self).tx_client) == limit(old(self).tx_client),
            final(self).outcomes().drop_last() == old(self).outcomes(),
    {
        self.enqueue(Lane::Reliable, packet);
    }

    /// Offers `packet` to the queue; if the queue does not take it, it is
    /// dropped.
    pub fn send_lossy(&mut self, packet: &Packet)
        requires
            old(self).wf(),
        ensures
            final(self).wf(),
            final(self)@ == after_send_on(old(self)@, Lane::Lossy, packet@),
            limit(final(self).tx_client) == limit(old(self).tx_client),
            final(self).outcomes().drop_last() == old(self).outcomes(),
    {
        self.enqueue(Lane::Lossy, packet);
    }

    /// Puts `packet` into the slot of the latest `SERVER_TIME`, in place of
    /// an older one that is not on its way yet.
    pub fn send_latest_server_time(&mut self, packet: &Packet)
        requires
            old(self).wf(),
        ensures
            final(self).wf(),
            final(self)@ == after_send_on(old(self)@, Lane::Latest, packet@),
            final(self).tx_client == old(self).tx_client,
            final(self).outcomes() == old(self).outcomes(),
    {
        let data = packet.as_bytes();
        replace_latest_server_time(&mut self.latest_server_time, data);
        proof {
            let s = Sent { lane: Lane::Latest, packet: packet@ };
            lemma_queued_push(self.log@, s);
            self.log@ = self.log@.push(s);
        }
    }

    fn enqueue(&mut self, lane: Lane, packet: &Packet)
        requires
            old(self).wf(),
            lane != Lane::Latest,
        ensures
            final(self).wf(),
            final(self)@ == after_send_on(old(self)@, lane, packet@),
            limit(final(self).tx_client) == limit(old(self).tx_client),
            final(self).outcomes().drop_last() == old(self).outcomes(),
    {
        let ghost s = Sent { lane, packet: packet@ };
        let ghost sent = queued(self.log@);
        let ghost before = self.outcomes();
        let data = packet.as_bytes();
        let offer = try_send(&mut self.tx_client, data);
        proof {
            lemma_queued_push(self.log@, s);
            lemma_refusals_len(before, sent);
            self.log@ = self.log@.push(s);
            assert(self.outcomes() =~= before.push((wire(packet@), outcome(offer))));
            assert(self.outcomes().drop_last() =~= before);
            assert(sent.push(s).drop_last() =~= sent);
        }
        let ghost waiting = self.refused@;
        match offer {
            Offer::Taken => {},
            Offer::Full(data) => {
                self.refused.push(Refusal { lane, action: packet.action, data, closed: false });
            },
            Offer::Closed(data) => {
                self.refused.push(Refusal { lane, action: packet.action, data, closed: true });
            },
        }
        proof {
            let all = refusals(before, sent);
            let k = self.drained@ as int;
            if !(offer is Taken) {
                let last = self.refused@.last()@;
                assert(refusals(self.outcomes(), queued(self.log@)) == all.push(last));
                assert(refusal_models(self.refused@) =~= refusal_models(waiting).push(last));
                assert(all.push(last).skip(k) =~= all.skip(k).push(last));
            }
        }
    }

    /// Hands over the latest `SERVER_TIME` that is not on its way yet.
    pub fn take_latest(&mut self) -> (r: Option<Vec<u8>>)
        requires
            old(self).wf(),
        ensures
            final(self).wf(),
            r == old(self).latest_server_time,
            final(self)@ == (ClientModel { latest: None, ..old(self)@ }),
            final(self).tx_client == old(self).tx_client,
    {
        take_latest_server_time(&mut self.latest_server_time)
    }

    /// Hands over the packets that the queue refused since the last call.
    pub fn take_refused(&mut self) -> (r: Vec<Refusal>)
        requires
            old(self).wf(),
        ensures
            final(self).wf(),
            r@ == old(self).refused@,
            final(self).refused@ == Seq::<Refusal>::empty(),
            final(self)@ == (ClientModel {
                drained: old(self)@.drained + r@.len(),
                ..old(self)@
            }),
            final(self).tx_client == old(self).tx_client,
    {
        let mut taken: Vec<Refusal> = Vec::new();
        std::mem::swap(&mut taken, &mut self.refused);
        proof {
            let all = refusals(self.outcomes(), queued(self.log@));
            assert(refusal_models(taken@).len() == taken@.len());
            self.drained@ = self.drained@ + taken@.len();
            assert(refusal_models(self.refused@) =~= all.skip(self.drained@ as int));
        }
        taken
    }

    /// Takes note of a packet for this client that was dropped. Where the drop
    /// is to be reported, the result is the number of drops that went
    /// unreported before it.
    pub fn log_lossy_drop(&mut self, now_ms: u64) -> (r: Option<u64>)
        requires
            old(self).wf(),
        ensures
            final(self).wf(),
            final(self)@ == (ClientModel {
                lossy_drops: after_drop(old(self).lossy_drops, now_ms),
                ..old(self)@
            }),
            final(self).tx_client == old(self).tx_client,
            r == (if drop_is_reported(old(self).lossy_drops, now_ms) {
                Some(old(self).lossy_drops.suppressed)
            } else {
                None
            }),
    {
        self.lossy_drops.record(now_ms)
    }
}

/// What a queue refused is kept: a packet that went to the queue was taken or
/// is among the refusals, with its lane and its bytes.
pub proof fn lemma_taken_or_refused(outcomes: Seq<(Seq<u8>, int)>, sent: Seq<Sent>, i: int)
    requires
        outcomes.len() == sent.len(),
        0 <= i < sent.len(),
    ensures
        outcomes[i].1 == 0 || refusals(outcomes, sent).contains(
            RefusalModel {
                lane: sent[i].lane,
                action: sent[i].packet.action,
                data: wire(sent[i].packet),
                closed: outcomes[i].1 == 2,
            },
        ),
    decreases sent.len(),
{
    let all = refusals(outcomes, sent);
    let rest = refusals(outcomes.drop_last(), sent.drop_last());
    let r = RefusalModel {
        lane: sent[i].lane,
        action: sent[i].packet.action,
        data: wire(sent[i].packet),
        closed: outcomes[i].1 == 2,
    };
    if i == sent.len() - 1 {
        if outcomes[i].1 != 0 {
            assert(all[all.len() - 1] == r);
        }
    } else {
        lemma_taken_or_refused(outcomes.drop_last(), sent.drop_last(), i);
        if outcomes[i].1 != 0 {
            let k = choose|k: int| 0 <= k < rest.len() && rest[k] == r;
            assert(all[k] == r);
        }
    }
}

/// Of several `SERVER_TIME` only the last one waits, and none goes to the
/// queue.
pub proof fn lemma_newer_time_replaces(c: ClientModel, older: PacketModel, newer: PacketModel)
    requires
        older.action == Action::SERVER_TIME,
        newer.action == Action::SERVER_TIME,
    ensures
        after_send(after_send(c, older), newer).latest == Some(wire(newer)),
        queued(after_send(after_send(c, older), newer).log) == queued(c.log),
{
    let s = Sent { lane: Lane::Latest, packet: older };
    lemma_queued_push(c.log, s);
    lemma_queued_push(c.log.push(s), Sent { lane: Lane::Latest, packet: newer });
}

} // verus!
