//! What is written to a connection, and when.
//!
//! A pending `SERVER_TIME` goes before everything that waits in the queue.

use vstd::prelude::*;

use crate::client::take_latest_server_time;

verus! {

/// What the writer of a connection has learnt.
pub enum WriterEvent {
    /// It has started, has written something, or a `SERVER_TIME` has come in.
    Ready,
    /// This came out of the queue.
    Queued(Vec<u8>),
    /// Nothing will come out of the queue any more.
    QueueClosed,
    /// Something could not be written.
    WriteFailed,
}

/// What the writer of a connection does next.
pub enum WriterStep {
    /// Write this.
    Write(Vec<u8>),
    /// Wait for a `SERVER_TIME` or for the queue.
    Wait,
    Stop,
}

/// What to do next, and what is pending afterwards.
pub open spec fn writer_turn(event: WriterEvent, slot: Option<Vec<u8>>) -> (
    WriterStep,
    Option<Vec<u8>>,
) {
    match (event, slot) {
        (WriterEvent::Ready, Some(data)) => (WriterStep::Write(data), None),
        (WriterEvent::Ready, None) => (WriterStep::Wait, None),
        (WriterEvent::Queued(data), _) => (WriterStep::Write(data), slot),
        (_, _) => (WriterStep::Stop, slot),
    }
}

/// Decides what to do next; `slot` holds the pending `SERVER_TIME`.
pub fn writer_step(event: WriterEvent, slot: &mut Option<Vec<u8>>) -> (r: WriterStep)
    ensures
        match event {
            WriterEvent::Ready => {
                &&& r == match *old(slot) {
                    Some(data) => WriterStep::Write(data),
                    None => WriterStep::Wait,
                }
                &&& *final(slot) == None::<Vec<u8>>
            },
            WriterEvent::Queued(data) => r == WriterStep::Write(data) && *final(slot) == *old(slot),
            WriterEvent::QueueClosed => r == WriterStep::Stop && *final(slot) == *old(slot),
            WriterEvent::WriteFailed => r == WriterStep::Stop && *final(slot) == *old(slot),
        },
        (r, *final(slot)) == writer_turn(event, *old(slot)),
{
    match event {
        WriterEvent::Ready => match take_latest_server_time(slot) {
            Some(data) => WriterStep::Write(data),
            None => WriterStep::Wait,
        },
        WriterEvent::Queued(data) => WriterStep::Write(data),
        WriterEvent::QueueClosed => WriterStep::Stop,
        WriterEvent::WriteFailed => WriterStep::Stop,
    }
}

} // verus!
