//! The handshake that a replica runs against its primary before it serves
//! clients: four requests, each of which must get the expected reply.
//!
//! The caller owns the connection. It asks `request_for` what to send in the
//! present state, sends it, reads one frame and hands it to `on_reply`.

use crate::buffer::{bytes_from_vec, bytes_view};
use crate::decimal::{decimal, push_decimal};
use crate::frame::{Frame, FrameView};
use crate::parse::{bulk_views, bulks_of};
use bytes::Bytes;
use vstd::prelude::*;
use vstd::slice::slice_to_vec;
use vstd::string::StringExecFns;
use vstd::utf8::encode_utf8;

verus! {

/// How far the handshake has come.
#[derive(Clone, Copy, Debug, PartialEq, Eq)]
pub enum Handshake {
    /// Nothing sent yet.
    Start,
    /// `PING` was answered.
    PingAck,
    /// The listening port was accepted.
    ListeningPortAck,
    /// The capabilities were accepted.
    CapaAck,
    /// The primary has started the resynchronisation: done.
    Synced,
}

/// The handshake failed: the reply in `state` was not the expected one.
#[derive(Clone, Copy, Debug, PartialEq, Eq)]
pub struct HandshakeFailure {
    pub state: Handshake,
}

/// True when `s` begins with `p`.
pub open spec fn starts_with(s: Seq<u8>, p: Seq<u8>) -> bool {
    p.len() <= s.len() && s.take(p.len() as int) == p
}

/// The arguments of the request that is sent in `state` by a replica that
/// listens on `port`. Nothing is sent once the handshake is done.
pub open spec fn request(state: Handshake, port: u16) -> Option<Seq<Seq<u8>>> {
    match state {
        Handshake::Start => Some(seq![encode_utf8("PING"@)]),
        Handshake::PingAck => Some(
            seq![
                encode_utf8("REPLCONF"@),
                encode_utf8("listening-port"@),
                decimal(port as nat),
            ],
        ),
        Handshake::ListeningPortAck => Some(
            seq![encode_utf8("REPLCONF"@), encode_utf8("capa"@), encode_utf8("psync2"@)],
        ),
        Handshake::CapaAck => Some(
            seq![encode_utf8("PSYNC"@), encode_utf8("?"@), encode_utf8("-1"@)],
        ),
        Handshake::Synced => None,
    }
}

/// True when `reply` is what the request of `state` must be answered with.
pub open spec fn accepts(state: Handshake, reply: FrameView) -> bool {
    match state {
        Handshake::Start => reply == FrameView::Simple("PONG"@),
        Handshake::PingAck => reply == FrameView::Simple("OK"@),
        Handshake::ListeningPortAck => reply == FrameView::Simple("OK"@),
        Handshake::CapaAck => reply matches FrameView::Simple(text) && starts_with(
            encode_utf8(text),
            encode_utf8("FULLRESYNC"@),
        ),
        Handshake::Synced => false,
    }
}

/// The state that follows `state` once its reply was accepted.
pub open spec fn successor(state: Handshake) -> Handshake {
    match state {
        Handshake::Start => Handshake::PingAck,
        Handshake::PingAck => Handshake::ListeningPortAck,
        Handshake::ListeningPortAck => Handshake::CapaAck,
        Handshake::CapaAck => Handshake::Synced,
        Handshake::Synced => Handshake::Synced,
    }
}

/// One step: the next state on the expected reply, failure on any other.
pub open spec fn advance(state: Handshake, reply: FrameView) -> Option<Handshake> {
    if accepts(state, reply) {
        Some(successor(state))
    } else {
        None
    }
}

/// The state after the replies of `replies` have come in, one per request,
/// or nothing if one of them was not the expected one.
pub open spec fn run(state: Handshake, replies: Seq<FrameView>) -> Option<Handshake>
    decreases replies.len(),
{
    if replies.len() == 0 {
        Some(state)
    } else {
        match advance(state, replies[0]) {
            Some(next) => run(next, replies.skip(1)),
            None => None,
        }
    }
}

/// The handshake succeeds on exactly one exchange: `PONG`, `OK`, `OK` and a
/// line that begins with `FULLRESYNC`, in this order and nothing after.
pub proof fn lemma_run_reaches_synced(replies: Seq<FrameView>)
    ensures
        run(Handshake::Start, replies) == Some(Handshake::Synced) <==> {
            &&& replies.len() == 4
            &&& accepts(Handshake::Start, replies[0])
            &&& accepts(Handshake::PingAck, replies[1])
            &&& accepts(Handshake::ListeningPortAck, replies[2])
            &&& accepts(Handshake::CapaAck, replies[3])
        },
{
    reveal_with_fuel(run, 6);
    let r1 = replies.skip(1);
    let r2 = r1.skip(1);
    let r3 = r2.skip(1);
    let r4 = r3.skip(1);
    if replies.len() >= 1 {
        assert(r1.len() == replies.len() - 1);
    }
    if replies.len() >= 2 {
        assert(r1[0] == replies[1]);
    }
    if replies.len() >= 3 {
        assert(r2[0] == replies[2]);
    }
    if replies.len() >= 4 {
        assert(r3[0] == replies[3]);
        assert(r4.len() == replies.len() - 4);
    }
    if replies.len() >= 5 {
        assert(!accepts(Handshake::Synced, r4[0]));
    }
}

/// The bytes of a word as a buffer.
fn word_bytes(word: &str) -> (b: Bytes)
    ensures
        bytes_view(b) == encode_utf8(word@),
{
    bytes_from_vec(slice_to_vec(word.as_bytes()))
}

/// The request to send in `state`, or nothing once the handshake is done.
pub fn request_for(state: Handshake, port: u16) -> (r: Option<Frame>)
    ensures
        match r {
            Some(f) => bulks_of(f@) == request(state, port),
            None => request(state, port) is None,
        },
{
    let mut args: Vec<Bytes> = Vec::new();
    match state {
        Handshake::Start => {
            args.push(word_bytes("PING"));
        },
        Handshake::PingAck => {
            let mut digits: Vec<u8> = Vec::new();
            push_decimal(&mut digits, port as u64);
            assert(digits@ =~= decimal(port as nat));
            args.push(word_bytes("REPLCONF"));
            args.push(word_bytes("listening-port"));
            args.push(bytes_from_vec(digits));
        },
        Handshake::ListeningPortAck => {
            args.push(word_bytes("REPLCONF"));
            args.push(word_bytes("capa"));
            args.push(word_bytes("psync2"));
        },
        Handshake::CapaAck => {
            args.push(word_bytes("PSYNC"));
            args.push(word_bytes("?"));
            args.push(word_bytes("-1"));
        },
        Handshake::Synced => {
            return None;
        },
    }
    assert(bulk_views(args@) =~= request(state, port)->Some_0);
    Some(Frame::from(args))
}

/// Tells whether the bytes of `text` begin with the bytes of `word`.
fn begins_with(text: &str, word: &str) -> (b: bool)
    ensures
        b == starts_with(encode_utf8(text@), encode_utf8(word@)),
{
    let t = text.as_bytes();
    let w = word.as_bytes();
    let n: usize = w.len();
    if t.len() < n {
        return false;
    }
    let mut i: usize = 0;
    while i < n
        invariant
            i <= n,
            n == w@.len(),
            n <= t@.len(),
            t@ == encode_utf8(text@),
            w@ == encode_utf8(word@),
            forall|j: int| 0 <= j < i ==> t@[j] == w@[j],
        decreases n - i,
    {
        if t[i] != w[i] {
            assert(t@.take(n as int)[i as int] != w@[i as int]);
            return false;
        }
        i = i + 1;
    }
    assert(t@.take(n as int) =~= w@);
    true
}

/// Tells whether `frame` is the simple string `word`.
fn is_simple(frame: &Frame, word: &str) -> (b: bool)
    ensures
        b == (frame@ == FrameView::Simple(word@)),
{
    match frame {
        Frame::Simple(text) => *text == String::from_str(word),
        _ => false,
    }
}

/// Takes the reply to the request of `state`: the next state if it is the
/// expected one, else the failure of the handshake.
pub fn on_reply(state: Handshake, reply: &Frame) -> (r: Result<Handshake, HandshakeFailure>)
    ensures
        match r {
            Ok(next) => advance(state, reply@) == Some(next),
            Err(e) => advance(state, reply@) is None && e.state == state,
        },
{
    let accepted: bool = match state {
        Handshake::Start => is_simple(reply, "PONG"),
        Handshake::PingAck => is_simple(reply, "OK"),
        Handshake::ListeningPortAck => is_simple(reply, "OK"),
        Handshake::CapaAck => match reply {
            Frame::Simple(text) => begins_with(text.as_str(), "FULLRESYNC"),
            _ => false,
        },
        Handshake::Synced => false,
    };
    if accepted {
        let next = match state {
            Handshake::Start => Handshake::PingAck,
            Handshake::PingAck => Handshake::ListeningPortAck,
            Handshake::ListeningPortAck => Handshake::CapaAck,
            _ => Handshake::Synced,
        };
        Ok(next)
    } else {
        Err(HandshakeFailure { state })
    }
}

} // verus!
