//! Bytes, packets and the handshake.

use vangers_srv::bytes::{
    copy_range, push_i16, push_i32, push_u32, read_i16, read_i32, read_u32, slice_le_to_i16,
    slice_le_to_i32,
};
use vangers_srv::client::PROTOCOL_VERSION;
use vangers_srv::frames::FrameBuffer;
use vangers_srv::handshake::{AuthError, Handshake, Read, Step, HS_IN, HS_OUT};
use vangers_srv::protocol::{Action, Packet};

#[test]
fn integers_are_read_and_written_little_end_first() {
    for v in [0i32, 1, -1, 0x1234_5678, i32::MAX, i32::MIN] {
        let mut out = vec![];
        push_i32(&mut out, v);
        assert_eq!(out, v.to_le_bytes());
        assert_eq!(read_i32(&out, 0), v);
        assert_eq!(slice_le_to_i32(&out), v);
        assert_eq!(read_u32(&out, 0), v as u32);
        let mut unsigned = vec![];
        push_u32(&mut unsigned, v as u32);
        assert_eq!(unsigned, out);
    }
    for v in [0i16, 1, -1, 0x1234, i16::MAX, i16::MIN] {
        let mut out = vec![9];
        push_i16(&mut out, v);
        assert_eq!(out[1..], v.to_le_bytes());
        assert_eq!(read_i16(&out, 1), v);
        assert_eq!(slice_le_to_i16(&out[1..]), v);
    }
    assert_eq!(copy_range(&[1, 2, 3, 4], 1, 3), vec![2, 3]);
}

#[test]
fn packet_is_size_action_and_payload() {
    let packet = Packet::new(Action::SET_WORLD, &[1, 2, 3]);
    assert_eq!(packet.as_bytes(), vec![4, 0, Action::SET_WORLD.code(), 1, 2, 3]);
    let read = Packet::from_slice(&packet.as_bytes());
    assert_eq!(read.action, Action::SET_WORLD);
    assert_eq!(read.data, vec![1, 2, 3]);
    let large = Packet::new(Action::SET_WORLD, &[0; 300]);
    assert_eq!(large.as_bytes()[..2], [45, 1]);
}

#[test]
fn actions_and_codes_match() {
    for code in 0..=255u8 {
        let action = Action::from_u8(code);
        if action != Action::UNKNOWN {
            assert_eq!(action.code(), code);
        }
    }
    assert!(Action::UPDATE_OBJECT.is_lossy_realtime());
    assert!(Action::SERVER_TIME.is_lossy_realtime());
    assert!(!Action::DELETE_OBJECT.is_lossy_realtime());
}

#[test]
fn answer_has_its_own_action() {
    let query = Packet::new(Action::TOP_LIST_QUERY, &[]);
    let answer = query.create_answer(vec![5]).unwrap();
    assert_eq!(answer.action, Action::TOP_LIST_RESPONSE);
    assert_eq!(answer.as_bytes(), vec![2, 0, Action::TOP_LIST_RESPONSE.code(), 5]);
    assert!(Packet::new(Action::LEAVE_WORLD, &[]).create_answer(vec![]).is_none());
}

fn stream() -> (Vec<u8>, Vec<Vec<u8>>) {
    let packets: Vec<Vec<u8>> = [
        Packet::new(Action::LEAVE_WORLD, &[]),
        Packet::new(Action::SET_WORLD, &[1, 100, 0]),
        Packet::new(Action::CREATE_OBJECT, &[7; 300]),
        Packet::new(Action::SET_POSITION, &[0; 6]),
    ]
    .iter()
    .map(|p| p.as_bytes())
    .collect();
    (packets.concat(), packets)
}

#[test]
fn chunks_do_not_matter() {
    let (bytes, packets) = stream();
    for size in [1, 2, 3, 5, 7, 64, 300, 1000] {
        let mut buffer = FrameBuffer::new();
        let mut read: Vec<Vec<u8>> = Vec::new();
        for chunk in bytes.chunks(size) {
            let fed = buffer.feed(chunk);
            assert!(!fed.malformed);
            read.extend(fed.packets.iter().map(|p| p.as_bytes()));
        }
        assert_eq!(read, packets);
        assert_eq!(buffer.room(), 32767);
    }
}

#[test]
fn half_a_packet_waits_for_the_rest() {
    let mut buffer = FrameBuffer::new();
    assert!(buffer.feed(&[4, 0, 0x8A]).packets.is_empty());
    assert_eq!(buffer.room(), 32764);
    let fed = buffer.feed(&[1, 2, 3]);
    assert_eq!(fed.packets.len(), 1);
    assert_eq!(fed.packets[0].data, vec![1, 2, 3]);
}

#[test]
fn size_that_no_packet_has_is_reported() {
    for size in [0i16, -1, -2, -3, i16::MIN, 32766, 32767] {
        let mut buffer = FrameBuffer::new();
        let mut bytes = Packet::new(Action::LEAVE_WORLD, &[]).as_bytes();
        bytes.extend_from_slice(&size.to_le_bytes());
        let fed = buffer.feed(&bytes);
        assert!(fed.malformed);
        assert_eq!(fed.packets.len(), 1);
        assert_eq!(buffer.room(), 32765);
    }
}

#[test]
fn client_that_knows_the_words_is_let_in() {
    let mut hello = b"Vivat Sicher, Rock'n'Roll forever!!!".to_vec();
    assert_eq!(hello, HS_IN);
    hello.extend_from_slice(&[0, PROTOCOL_VERSION]);
    for size in [1, 10, 36, 37, 38] {
        let mut handshake = Handshake::new();
        let mut last = Step::Read;
        for chunk in hello.chunks(size) {
            assert!(matches!(last, Step::Read));
            last = handshake.advance(Read::Bytes(chunk.to_vec()));
        }
        match last {
            Step::Reply(protocol, reply) => {
                assert_eq!(protocol, 3);
                assert_eq!(reply[..24], HS_OUT);
                assert_eq!(reply, b"Enter, my son, please...\0\x03".to_vec());
                assert_eq!(Handshake::finish(protocol, true), Ok(3));
                assert_eq!(Handshake::finish(protocol, false), Err(AuthError::HsResponse));
            }
            _ => panic!("the client must be let in"),
        }
    }
}

#[test]
fn client_that_does_not_is_turned_away() {
    let error = |reads: Vec<Read>| {
        let mut handshake = Handshake::new();
        for read in reads {
            match handshake.advance(read) {
                Step::Read => {}
                Step::Refuse(err) => return Some(err),
                Step::Reply(_, _) => return None,
            }
        }
        None
    };
    let bytes = |tail: &[u8]| {
        let mut hello = HS_IN.to_vec();
        hello.extend_from_slice(tail);
        Read::Bytes(hello)
    };
    assert_eq!(
        error(vec![Read::Bytes(b"Vivat x".to_vec())]),
        Some(AuthError::HsUnexpectedRequestHeader)
    );
    assert_eq!(error(vec![bytes(&[1])]), Some(AuthError::HsZeroTerminated));
    assert_eq!(
        error(vec![bytes(&[0]), Read::Bytes(vec![2])]),
        Some(AuthError::HsUnexpectedProtocolVersion(3, 2))
    );
    assert_eq!(error(vec![bytes(&[]), Read::Bytes(vec![])]), Some(AuthError::ClosedByClient));
    assert_eq!(error(vec![Read::Failed]), Some(AuthError::Connection));
}
