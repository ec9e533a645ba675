//! Clients, their queues and their writers.

use tokio::sync::mpsc;

use vangers_srv::client::{
    replace_latest_server_time, take_latest_server_time, Client, Connection, Fallback, Lane,
    LossyDropLog,
};
use vangers_srv::protocol::{Action, Packet};
use vangers_srv::writer::{writer_step, WriterEvent, WriterStep};

fn test_client(queue_size: usize) -> (Client, mpsc::Receiver<Vec<u8>>) {
    let (tx_client, rx_client) = mpsc::channel::<Vec<u8>>(queue_size);
    let mut client = Client::with_queue(1, tx_client);
    client.protocol = 3;
    (client, rx_client)
}

#[test]
fn lossy_realtime_packet_is_dropped_when_queue_is_full() {
    let (mut client, mut rx_client) = test_client(1);
    let first = Packet::new(Action::UPDATE_OBJECT, &[1]);
    let second = Packet::new(Action::UPDATE_OBJECT, &[2]);

    client.send(&first);
    client.send(&second);

    assert_eq!(rx_client.try_recv().unwrap(), first.as_bytes());
    assert!(rx_client.try_recv().is_err());
}

#[test]
fn server_time_uses_latest_slot_instead_of_fifo_queue() {
    let (mut client, mut rx_client) = test_client(10);
    let packet = Packet::new(Action::SERVER_TIME, &[1, 2, 3, 4]);

    client.send(&packet);

    assert!(rx_client.try_recv().is_err());
    assert_eq!(
        take_latest_server_time(&mut client.latest_server_time).unwrap(),
        packet.as_bytes()
    );
    assert!(take_latest_server_time(&mut client.latest_server_time).is_none());
}

#[test]
fn newer_server_time_replaces_pending_server_time() {
    let (mut client, mut rx_client) = test_client(10);
    let old = Packet::new(Action::SERVER_TIME, &[1, 0, 0, 0]);
    let new = Packet::new(Action::SERVER_TIME, &[2, 0, 0, 0]);

    client.send(&old);
    client.send(&new);

    assert!(rx_client.try_recv().is_err());
    assert_eq!(
        take_latest_server_time(&mut client.latest_server_time).unwrap(),
        new.as_bytes()
    );
    assert!(take_latest_server_time(&mut client.latest_server_time).is_none());
}

#[test]
fn reliable_packet_waits_when_queue_is_full() {
    let (mut client, mut rx_client) = test_client(1);
    let first = Packet::new(Action::PLAYERS_DATA, &[1]);
    let second = Packet::new(Action::DELETE_OBJECT, &[2]);

    client.send(&first);
    client.send(&second);

    assert_eq!(rx_client.try_recv().unwrap(), first.as_bytes());

    let refused = client.take_refused();
    assert_eq!(refused.len(), 1);
    for refusal in refused {
        assert_eq!(refusal.lane, Lane::Reliable);
        assert_eq!(refusal.action, Action::DELETE_OBJECT);
        assert!(!refusal.closed);
        match refusal.fallback() {
            Fallback::SendLater(data) => client.tx_client.try_send(data).unwrap(),
            _ => panic!("a reliable packet must be sent later"),
        }
    }
    assert_eq!(rx_client.try_recv().unwrap(), second.as_bytes());
    assert!(client.take_refused().is_empty());
}

#[test]
fn reliable_packet_to_closed_queue_is_reported() {
    let (mut client, rx_client) = test_client(1);
    drop(rx_client);
    client.send(&Packet::new(Action::PLAYERS_DATA, &[1]));
    client.send(&Packet::new(Action::UPDATE_OBJECT, &[1]));

    let mut refused = client.take_refused();
    assert_eq!(refused.len(), 2);
    assert!(matches!(refused.pop().unwrap().fallback(), Fallback::CountDrop));
    assert!(matches!(refused.pop().unwrap().fallback(), Fallback::ReportLost));
}

#[test]
fn packets_leave_the_queue_in_the_order_they_were_sent() {
    let (mut client, mut rx_client) = test_client(10);
    for n in 0..5u8 {
        client.send(&Packet::new(Action::PLAYERS_DATA, &[n]));
    }
    for n in 0..5u8 {
        let bytes = Packet::new(Action::PLAYERS_DATA, &[n]).as_bytes();
        assert_eq!(rx_client.try_recv().unwrap(), bytes);
    }
}

#[test]
fn new_client_has_a_queue_of_its_own() {
    let (mut client, mut rx) = Client::new();
    assert_eq!(client.protocol, 0);
    assert!(client.connection == Connection::Connected);
    let packet = Packet::new(Action::PLAYERS_DATA, &[7]);
    for _ in 0..1000 {
        client.send(&packet);
    }
    assert!(client.take_refused().is_empty());
    client.send(&packet);
    assert_eq!(client.take_refused().len(), 1);
    assert_eq!(rx.try_recv().unwrap(), packet.as_bytes());

    let ids: Vec<usize> = (0..8).map(|_| Client::new().0.id).collect();
    assert!(ids.iter().any(|id| *id != ids[0]));
}

#[test]
fn take_latest_empties_the_slot() {
    let (mut client, _rx) = test_client(1);
    let packet = Packet::new(Action::SERVER_TIME, &[9]);
    client.send(&packet);
    assert_eq!(client.take_latest(), Some(packet.as_bytes()));
    assert_eq!(client.take_latest(), None);
}

#[test]
fn slot_tells_whether_it_was_taken() {
    let mut slot = None;
    assert!(!replace_latest_server_time(&mut slot, vec![1]));
    assert!(replace_latest_server_time(&mut slot, vec![2]));
    assert_eq!(take_latest_server_time(&mut slot), Some(vec![2]));
}

#[test]
fn writer_sends_pending_server_time_before_fifo_packets() {
    let (tx_client, mut rx_server) = mpsc::channel::<Vec<u8>>(10);
    let mut latest_server_time = None;

    let fifo = Packet::new(Action::PLAYERS_DATA, &[1]);
    let server_time = Packet::new(Action::SERVER_TIME, &[2, 0, 0, 0]);
    tx_client.try_send(fifo.as_bytes()).unwrap();
    replace_latest_server_time(&mut latest_server_time, server_time.as_bytes());

    let mut written = Vec::new();
    let mut event = WriterEvent::Ready;
    drop(tx_client);
    loop {
        match writer_step(event, &mut latest_server_time) {
            WriterStep::Write(data) => {
                written.push(data);
                event = WriterEvent::Ready;
            }
            WriterStep::Wait => {
                event = match rx_server.try_recv() {
                    Ok(data) => WriterEvent::Queued(data),
                    Err(_) => WriterEvent::QueueClosed,
                };
            }
            WriterStep::Stop => break,
        }
    }
    assert_eq!(written, vec![server_time.as_bytes(), fifo.as_bytes()]);
}

#[test]
fn writer_observes_server_time_notify_without_fifo_activity() {
    let mut slot = None;
    assert!(matches!(writer_step(WriterEvent::Ready, &mut slot), WriterStep::Wait));

    let server_time = Packet::new(Action::SERVER_TIME, &[3, 0, 0, 0]);
    replace_latest_server_time(&mut slot, server_time.as_bytes());
    match writer_step(WriterEvent::Ready, &mut slot) {
        WriterStep::Write(data) => assert_eq!(data, server_time.as_bytes()),
        _ => panic!("the pending time must be written"),
    }
    assert!(slot.is_none());
}

#[test]
fn writer_stops_when_it_cannot_write() {
    let mut slot = Some(vec![1]);
    assert!(matches!(writer_step(WriterEvent::WriteFailed, &mut slot), WriterStep::Stop));
    assert!(matches!(writer_step(WriterEvent::QueueClosed, &mut slot), WriterStep::Stop));
    assert_eq!(slot, Some(vec![1]));
}

#[test]
fn dropped_packets_are_reported_every_five_seconds() {
    let mut log = LossyDropLog { last_log_ms: 0, suppressed: 0 };
    assert_eq!(log.record(10_000), Some(0));
    assert_eq!(log.record(10_001), None);
    assert_eq!(log.record(14_999), None);
    assert_eq!(log.record(9_000), None);
    assert_eq!(log.record(15_000), Some(3));
    assert_eq!(log, LossyDropLog { last_log_ms: 15_000, suppressed: 0 });
}

#[test]
fn drops_of_a_client_are_counted() {
    let (mut client, _rx) = test_client(1);
    assert_eq!(client.log_lossy_drop(1), Some(0));
    assert_eq!(client.log_lossy_drop(2), None);
    assert_eq!(client.log_lossy_drop(5_001), Some(1));
}

#[test]
fn connections_are_equal_when_in_the_same_state() {
    assert!(Connection::Authenticated(1) == Connection::Authenticated(2));
    assert!(Connection::Connected == Connection::Connected);
    assert!(Connection::Disconnected == Connection::Disconnected);
    assert!(Connection::Connected != Connection::Disconnected);
    let news = || Connection::Updated(Packet::new(Action::LEAVE_WORLD, &[]));
    assert!(news() != news());
}
