//! Connections from their first byte to their end.

use vangers_srv::client::{ClientID, Connection, MpscData};
use vangers_srv::handshake::{AuthError, Read, HS_IN};
use vangers_srv::protocol::{Action, Packet};
use vangers_srv::session::{Happening, Next, Session};

const ID: ClientID = 42;

fn bytes(data: &[u8]) -> Happening {
    Happening::Read(Read::Bytes(data.to_vec()))
}

fn hello() -> Vec<u8> {
    let mut hello = HS_IN.to_vec();
    hello.extend_from_slice(&[0, 3]);
    hello
}

/// What the news say, and that all are of the connection.
fn told(news: Vec<MpscData>) -> Vec<String> {
    news.into_iter()
        .map(|MpscData(id, connection)| {
            assert_eq!(id, ID);
            match connection {
                Connection::Connected => "connected".to_string(),
                Connection::Authenticated(v) => format!("in {v}"),
                Connection::Updated(p) => format!("{:?} {:?}", p.action, p.data),
                Connection::Disconnected => "gone".to_string(),
            }
        })
        .collect()
}

fn let_in() -> Session {
    let mut session = Session::new(ID);
    match session.advance(bytes(&hello())).next {
        Next::Reply(reply) => assert_eq!(reply, b"Enter, my son, please...\0\x03".to_vec()),
        _ => panic!("the greeting must be answered"),
    }
    let turn = session.advance(Happening::ReplySent(true));
    assert!(matches!(turn.next, Next::Read));
    assert_eq!(told(turn.news), vec!["in 3"]);
    session
}

#[test]
fn news_are_the_same_for_every_split() {
    let stream: Vec<u8> = [
        Packet::new(Action::LEAVE_WORLD, &[]),
        Packet::new(Action::SET_WORLD, &[1, 100, 0]),
        Packet::new(Action::SET_POSITION, &[0; 6]),
    ]
    .iter()
    .flat_map(|p| p.as_bytes())
    .collect();
    for size in 1..=stream.len() {
        let mut session = let_in();
        assert_eq!(session.room(), 32767);
        let mut news = Vec::new();
        for chunk in stream.chunks(size) {
            let turn = session.advance(bytes(chunk));
            assert!(matches!(turn.next, Next::Read));
            assert!(!turn.malformed);
            news.extend(told(turn.news));
        }
        let turn = session.advance(bytes(&[]));
        assert!(matches!(turn.next, Next::Close));
        news.extend(told(turn.news));
        assert_eq!(
            news,
            vec![
                "LEAVE_WORLD []",
                "SET_WORLD [1, 100, 0]",
                "SET_POSITION [0, 0, 0, 0, 0, 0]",
                "gone",
            ]
        );
        assert_eq!(session.room(), 0);
    }
}

#[test]
fn greeting_may_come_in_pieces() {
    for size in [1, 7, 36, 37] {
        let mut session = Session::new(ID);
        assert_eq!(session.room(), 64);
        let greeting = hello();
        let chunks: Vec<&[u8]> = greeting.chunks(size).collect();
        for chunk in &chunks[..chunks.len() - 1] {
            let turn = session.advance(bytes(chunk));
            assert!(matches!(turn.next, Next::Read));
            assert!(turn.news.is_empty());
        }
        let turn = session.advance(bytes(chunks[chunks.len() - 1]));
        assert!(matches!(turn.next, Next::Reply(_)));
        assert!(turn.news.is_empty());
    }
}

#[test]
fn client_that_is_turned_away_is_only_gone() {
    let turned_away = |session: &mut Session, happening: Happening, reason: AuthError| {
        let turn = session.advance(happening);
        match turn.next {
            Next::TurnAway(error, words) => {
                assert_eq!(error, reason);
                assert_eq!(words, b"Auth failed, bye-bye\0".to_vec());
            }
            _ => panic!("the client must be turned away"),
        }
        assert_eq!(told(turn.news), vec!["gone"]);
        assert_eq!(session.room(), 0);
    };
    turned_away(&mut Session::new(ID), bytes(b"Hello"), AuthError::HsUnexpectedRequestHeader);
    turned_away(&mut Session::new(ID), bytes(&[]), AuthError::ClosedByClient);
    turned_away(&mut Session::new(ID), Happening::Read(Read::Failed), AuthError::Connection);
    let mut session = Session::new(ID);
    session.advance(bytes(&hello()));
    turned_away(&mut session, Happening::ReplySent(false), AuthError::HsResponse);
}

#[test]
fn broken_connection_is_gone() {
    let mut session = let_in();
    session.advance(bytes(&[9, 0, 1]));
    let turn = session.advance(Happening::Read(Read::Failed));
    assert!(matches!(turn.next, Next::Close));
    assert_eq!(told(turn.news), vec!["gone"]);
}

#[test]
fn impossible_size_is_reported_and_the_connection_goes_on() {
    let mut session = let_in();
    let turn = session.advance(bytes(&[0xFF, 0xFF]));
    assert!(turn.malformed);
    assert!(turn.news.is_empty());
    assert!(matches!(turn.next, Next::Read));
}
