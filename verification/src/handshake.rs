//! The handshake that opens a connection.

use vstd::prelude::*;

use crate::bytes::push_tail;
use crate::client::PROTOCOL_VERSION;

verus! {

/// What a client says first: "Vivat Sicher, Rock'n'Roll forever!!!".
pub const HS_IN: [u8; 36] = [
    86, 105, 118, 97, 116, 32, 83, 105, 99, 104, 101, 114, 44, 32, 82, 111, 99, 107, 39, 110,
    39, 82, 111, 108, 108, 32, 102, 111, 114, 101, 118, 101, 114, 33, 33, 33,
];

/// What the server answers: "Enter, my son, please...".
pub const HS_OUT: [u8; 24] = [
    69, 110, 116, 101, 114, 44, 32, 109, 121, 32, 115, 111, 110, 44, 32, 112, 108, 101, 97,
    115, 101, 46, 46, 46,
];

/// Why a connection is not let in.
#[derive(Clone, Copy, Debug, PartialEq, Eq, Structural)]
pub enum AuthError {
    /// The client closed the connection.
    ClosedByClient,
    /// The client did not say what a client says first.
    HsUnexpectedRequestHeader,
    /// The client speaks another version: the expected one, the given one.
    HsUnexpectedProtocolVersion(u8, u8),
    /// The answer could not be sent.
    HsResponse,
    /// The zero byte after the greeting is missing.
    HsZeroTerminated,
    /// The connection broke.
    Connection,
}

/// What is known of a client from the bytes it has sent so far.
pub enum Verdict {
    /// Nothing yet.
    NeedMore,
    /// It is let in and speaks this version.
    Welcome(u8),
    /// It is not let in.
    Refused(AuthError),
}

/// What the bytes that a client has sent so far say of it.
pub open spec fn verdict(received: Seq<u8>) -> Verdict {
    let magic = HS_IN@;
    let n = if received.len() < magic.len() { received.len() } else { magic.len() } as int;
    if received.take(n) != magic.take(n) {
        Verdict::Refused(AuthError::HsUnexpectedRequestHeader)
    } else if received.len() > magic.len() && received[magic.len() as int] != 0 {
        Verdict::Refused(AuthError::HsZeroTerminated)
    } else if received.len() < magic.len() + 2 {
        Verdict::NeedMore
    } else if received[magic.len() as int + 1] != PROTOCOL_VERSION {
        Verdict::Refused(
            AuthError::HsUnexpectedProtocolVersion(PROTOCOL_VERSION, received[magic.len() as int + 1]),
        )
    } else {
        Verdict::Welcome(PROTOCOL_VERSION)
    }
}

/// The answer to a client that speaks version `protocol`.
pub open spec fn welcome_bytes(protocol: u8) -> Seq<u8> {
    HS_OUT@ + seq![0u8, protocol]
}

/// Once something is known of a client, later bytes do not change it.
pub proof fn lemma_verdict_is_final(received: Seq<u8>, more: Seq<u8>)
    requires
        verdict(received) != Verdict::NeedMore,
    ensures
        verdict(received + more) == verdict(received),
{
    let magic = HS_IN@;
    let all = received + more;
    let n = if received.len() < magic.len() { received.len() } else { magic.len() } as int;
    let m = if all.len() < magic.len() { all.len() } else { magic.len() } as int;
    assert(all.take(m).take(n) =~= received.take(n));
    assert(magic.take(m).take(n) =~= magic.take(n));
    if received.take(n) == magic.take(n) {
        assert(all.take(m) =~= received.take(n));
    }
}

/// A client is let in exactly when its bytes start with the greeting, a zero
/// byte and the version that the server speaks.
pub proof fn lemma_who_is_let_in(received: Seq<u8>)
    ensures
        verdict(received) is Welcome <==> (HS_IN@ + seq![0u8, PROTOCOL_VERSION]).is_prefix_of(
            received,
        ),
{
    let magic = HS_IN@;
    let hello = magic + seq![0u8, PROTOCOL_VERSION];
    assert(magic.take(magic.len() as int) =~= magic);
    if verdict(received) is Welcome {
        let head = received.take(magic.len() as int);
        assert forall|i: int| 0 <= i < hello.len() implies hello[i] == received[i] by {
            if i < magic.len() {
                assert(head[i] == magic[i]);
            }
        }
        assert(hello =~= received.subrange(0, hello.len() as int));
    }
    if hello.is_prefix_of(received) {
        assert forall|i: int| 0 <= i < hello.len() implies hello[i] == received[i] by {
            assert(received.subrange(0, hello.len() as int)[i] == received[i]);
        }
        assert(received.take(magic.len() as int) =~= magic);
    }
}

/// What a read from the connection brought.
pub enum Read {
    /// Bytes; none at all where the client has closed the connection.
    Bytes(Vec<u8>),
    /// The connection broke.
    Failed,
}

/// What to do next with a connection that is being opened.
pub enum Step {
    /// Read on.
    Read,
    /// Send the reply; if that works, the client is let in.
    Reply(u8, Vec<u8>),
    /// Turn the client away.
    Refuse(AuthError),
}

/// The next step after `received`.
pub open spec fn step_for(received: Seq<u8>, step: Step) -> bool {
    match verdict(received) {
        Verdict::NeedMore => step is Read,
        Verdict::Welcome(v) => step matches Step::Reply(p, reply) && p == v && reply@
            == welcome_bytes(v),
        Verdict::Refused(e) => step == Step::Refuse(e),
    }
}

/// A handshake under way: the bytes received so far.
pub struct Handshake {
    received: Vec<u8>,
}

impl View for Handshake {
    type V = Seq<u8>;

    closed spec fn view(&self) -> Seq<u8> {
        self.received@
    }
}

impl Handshake {
    /// A handshake in which nothing has been received.
    pub fn new() -> (h: Handshake)
        ensures
            h@ == Seq::<u8>::empty(),
    {
        Handshake { received: Vec::new() }
    }

    /// Takes what a read brought and says what to do next.
    pub fn advance(&mut self, read: Read) -> (step: Step)
        ensures
            match read {
                Read::Failed => step == Step::Refuse(AuthError::Connection) && final(self)@ == old(
                    self,
                )@,
                Read::Bytes(bytes) => {
                    &&& final(self)@ == old(self)@ + bytes@
                    &&& bytes@.len() == 0 ==> step == Step::Refuse(AuthError::ClosedByClient)
                    &&& bytes@.len() > 0 ==> step_for(old(self)@ + bytes@, step)
                },
            },
    {
        let bytes = match read {
            Read::Failed => {
                return Step::Refuse(AuthError::Connection);
            },
            Read::Bytes(bytes) => bytes,
        };
        push_tail(&mut self.received, &bytes, 0);
        assert(bytes@.skip(0) =~= bytes@);
        if bytes.len() == 0 {
            return Step::Refuse(AuthError::ClosedByClient);
        }
        let ghost received = self.received@;
        let ghost magic = HS_IN@;
        let len: usize = self.received.len();
        let n: usize = if len < 36 {
            len
        } else {
            36
        };
        let mut i: usize = 0;
        while i < n
            invariant
                0 <= i <= n <= 36,
                self.received@ == received,
                received == old(self)@ + bytes@,
                bytes@.len() > 0,
                read == Read::Bytes(bytes),
                n == (if received.len() < 36 { received.len() } else { 36 }),
                forall|j: int| 0 <= j < i ==> self.received@[j] == HS_IN@[j],
            decreases n - i,
        {
            if self.received[i] != HS_IN[i] {
                assert(self.received@.take(n as int)[i as int] != HS_IN@.take(n as int)[i as int]);
                return Step::Refuse(AuthError::HsUnexpectedRequestHeader);
            }
            i = i + 1;
        }
        assert(received.take(n as int) =~= magic.take(n as int));
        if len > 36 && self.received[36] != 0 {
            return Step::Refuse(AuthError::HsZeroTerminated);
        }
        if len < 36 + 2 {
            return Step::Read;
        }
        let protocol: u8 = self.received[36 + 1];
        if protocol != PROTOCOL_VERSION {
            return Step::Refuse(AuthError::HsUnexpectedProtocolVersion(PROTOCOL_VERSION, protocol));
        }
        let mut reply: Vec<u8> = Vec::new();
        push_tail(&mut reply, &HS_OUT, 0);
        reply.push(0);
        reply.push(protocol);
        assert(HS_OUT@.skip(0) =~= HS_OUT@);
        assert(reply@ =~= welcome_bytes(protocol));
        Step::Reply(protocol, reply)
    }

    /// The end of a handshake that came to a reply: whether it was `sent`
    /// decides.
    pub fn finish(protocol: u8, sent: bool) -> (r: Result<u8, AuthError>)
        ensures
            sent ==> r == Ok::<u8, AuthError>(protocol),
            !sent ==> r == Err::<u8, AuthError>(AuthError::HsResponse),
    {
        if sent {
            Ok(protocol)
        } else {
            Err(AuthError::HsResponse)
        }
    }
}

} // verus!
