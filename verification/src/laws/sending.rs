//! What becomes of packets on their way to a client.

use vstd::prelude::*;
use vstd::std_specs::cmp::PartialEqSpec;

use crate::client::{
    fallback_for, queued, refusals, Connection, FallbackModel, Lane, RefusalModel, Sent,
};
use crate::protocol::wire;
use crate::writer::{writer_turn, WriterEvent, WriterStep};

verus! {

/// Of the packets sent to a client all go to the queue, in order, but for those
/// of which only the latest counts.
pub proof fn lemma_what_is_queued(log: Seq<Sent>, more: Seq<Sent>)
    ensures
        queued(log + more) == queued(log) + queued(more),
        log.len() == 1 ==> queued(log) == (if log[0].lane == Lane::Latest {
            Seq::empty()
        } else {
            log
        }),
{
    let keep = |s: Sent| s.lane != Lane::Latest;
    Seq::filter_distributes_over_add(log, more, keep);
    if log.len() == 1 {
        let none = Seq::<Sent>::empty();
        assert(none.filter(keep) =~= none) by {
            reveal(Seq::filter);
        }
        assert(log =~= none.push(log[0]));
        none.lemma_filter_push(log[0], keep);
        assert(queued(log) =~= (if log[0].lane == Lane::Latest { Seq::empty() } else { log }));
    }
}

/// What waits for another try is what the queue refused, in order and each
/// once: its lane, its action, its bytes, and whether the queue was closed.
pub proof fn lemma_what_is_refused(
    outcomes: Seq<(Seq<u8>, int)>,
    sent: Seq<Sent>,
    later: Seq<(Seq<u8>, int)>,
    more: Seq<Sent>,
)
    requires
        outcomes.len() == sent.len(),
        later.len() == more.len(),
    ensures
        refusals(outcomes + later, sent + more) == refusals(outcomes, sent) + refusals(later, more),
        sent.len() == 1 ==> refusals(outcomes, sent) == (if outcomes[0].1 == 0 {
            Seq::empty()
        } else {
            seq![
                RefusalModel {
                    lane: sent[0].lane,
                    action: sent[0].packet.action,
                    data: wire(sent[0].packet),
                    closed: outcomes[0].1 == 2,
                },
            ]
        }),
    decreases more.len(),
{
    if sent.len() == 1 {
        assert(refusals(outcomes.drop_last(), sent.drop_last()) =~= Seq::empty());
        assert(refusals(outcomes, sent) =~= (if outcomes[0].1 == 0 {
            Seq::empty()
        } else {
            seq![
                RefusalModel {
                    lane: sent[0].lane,
                    action: sent[0].packet.action,
                    data: wire(sent[0].packet),
                    closed: outcomes[0].1 == 2,
                },
            ]
        }));
    }
    if more.len() == 0 {
        assert(outcomes + later =~= outcomes);
        assert(sent + more =~= sent);
        assert(refusals(outcomes + later, sent + more) =~= refusals(outcomes, sent) + refusals(
            later,
            more,
        ));
    } else {
        lemma_what_is_refused(outcomes, sent, later.drop_last(), more.drop_last());
        assert((outcomes + later).drop_last() =~= outcomes + later.drop_last());
        assert((sent + more).drop_last() =~= sent + more.drop_last());
        assert((outcomes + later).last() == later.last());
        assert((sent + more).last() == more.last());
        assert(refusals(outcomes + later, sent + more) =~= refusals(outcomes, sent) + refusals(
            later,
            more,
        ));
    }
}

/// What must arrive is never given up while the queue is open: the same bytes
/// are sent later. What may be lost is never sent later.
pub proof fn lemma_what_must_arrive(r: RefusalModel)
    ensures
        r.lane == Lane::Reliable && !r.closed <==> fallback_for(r) is SendLater,
        fallback_for(r) is SendLater ==> fallback_for(r) == FallbackModel::SendLater(r.data),
        r.lane == Lane::Reliable && r.closed <==> fallback_for(r) is ReportLost,
        r.lane == Lane::Latest || r.lane == Lane::Lossy <==> fallback_for(r) is CountDrop,
{
}

/// A pending `SERVER_TIME` is written before the writer waits, and once; what
/// comes out of the queue is written as it is and leaves the pending one alone;
/// the writer stops when the queue is closed or the connection is.
pub proof fn lemma_what_is_written(event: WriterEvent, slot: Option<Vec<u8>>)
    ensures
        ({
            let (step, pending) = writer_turn(event, slot);
            &&& event is Ready ==> pending is None && (slot is Some ==> step == WriterStep::Write(
                slot->0,
            )) && (slot is None ==> step is Wait)
            &&& event is Queued ==> pending == slot && step == WriterStep::Write(event->Queued_0)
            &&& event is QueueClosed || event is WriteFailed ==> pending == slot && step is Stop
        }),
{
}

/// Connections are equal that are in the same state, whatever the version; news
/// is equal to nothing.
pub proof fn lemma_same_state(a: Connection, b: Connection)
    ensures
        a.eq_spec(&b) <==> {
            ||| a is Connected && b is Connected
            ||| a is Authenticated && b is Authenticated
            ||| a is Disconnected && b is Disconnected
        },
{
}

} // verus!
