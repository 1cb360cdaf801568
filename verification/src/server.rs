//! What a connection does with the bytes it has received: take one request,
//! run it against the store, and say what goes back to the client.
//!
//! The caller owns the socket and the clock. It reads bytes, calls `handle`
//! with what it has and the present time, writes the reply, and drops the
//! bytes that were used.

use crate::cmd::{reply, store_after};
use crate::config::{ConfigView, RedisConfig};
use crate::db::{Db, StoreView};
use crate::error::{error_text, ErrorView, RedisError};
use crate::frame::{encode, Frame, FrameView};
use crate::parse::{parse_command, syntax_error};
use crate::stream::{decode, read_frame, Scan};
use vstd::prelude::*;

verus! {

/// What became of the bytes at hand.
#[derive(Debug, PartialEq)]
pub enum Served {
    /// One request was taken: `reply` goes back to the client and the first
    /// `used` bytes of the input are done with.
    Reply { reply: Vec<u8>, used: usize },
    /// The input ends inside a frame: more bytes are needed. If the stream
    /// has ended instead, the connection is broken.
    NeedMore,
    /// There is no input. If the stream has ended, the client has closed the
    /// connection between two requests.
    Closed,
}

/// The mathematical value of a `Served`.
pub enum ServedView {
    Reply { reply: Seq<u8>, used: int },
    NeedMore,
    Closed,
}

impl View for Served {
    type V = ServedView;

    open spec fn view(&self) -> ServedView {
        match self {
            Served::Reply { reply, used } => ServedView::Reply { reply: reply@, used: *used as int },
            Served::NeedMore => ServedView::NeedMore,
            Served::Closed => ServedView::Closed,
        }
    }
}

/// The frame that tells a client of an error.
pub open spec fn error_frame(e: ErrorView) -> FrameView {
    FrameView::Error(error_text(e))
}

/// The frame that answers a request frame: the reply of the command it asks
/// for, or the error that the grammar or the command reports.
pub open spec fn answer(request: FrameView, store: StoreView, config: ConfigView, now: nat) -> FrameView {
    match parse_command(request) {
        Ok(c) => match reply(c, store, config, now) {
            Ok(f) => f,
            Err(e) => error_frame(e),
        },
        Err(e) => error_frame(e),
    }
}

/// What a request frame leaves in the store: what its command leaves there;
/// a frame that is no valid request leaves the store as it is.
pub open spec fn store_after_request(request: FrameView, store: StoreView, now: nat) -> StoreView {
    match parse_command(request) {
        Ok(c) => store_after(c, store, now),
        Err(_) => store,
    }
}

/// What is done with the bytes `input`: nothing without input, nothing yet
/// with the beginning of a frame, and else one reply. A malformed frame is
/// answered with a syntax error, and all the input at hand is dropped with it.
pub open spec fn served(input: Seq<u8>, store: StoreView, config: ConfigView, now: nat) -> ServedView {
    if input.len() == 0 {
        ServedView::Closed
    } else {
        match decode(input) {
            Scan::Done { value, used } => ServedView::Reply {
                reply: encode(answer(value, store, config, now)),
                used,
            },
            Scan::Short => ServedView::NeedMore,
            Scan::Bad => ServedView::Reply {
                reply: encode(error_frame(syntax_error())),
                used: input.len() as int,
            },
        }
    }
}

/// What the bytes `input` leave in the store.
pub open spec fn store_after_input(input: Seq<u8>, store: StoreView, now: nat) -> StoreView {
    match decode(input) {
        Scan::Done { value, used } => store_after_request(value, store, now),
        _ => store,
    }
}

/// The frame that reports `e` to the client.
pub fn error_reply(e: &RedisError) -> (f: Frame)
    ensures
        f@ == error_frame(e@),
{
    Frame::Error(e.to_text())
}

/// Answers one request frame: reads it as a command, executes the command
/// against the store at the moment `now`, and gives the reply frame. An error
/// of the grammar or of the command comes back as an error frame.
pub fn respond(request: Frame, db: &mut Db, config: &RedisConfig, now: u64) -> (f: Frame)
    requires
        old(db).wf(),
    ensures
        final(db).wf(),
        final(db)@ == store_after_request(request@, old(db)@, now as nat),
        f@ == answer(request@, old(db)@, config@, now as nat),
{
    match request.parse_cmd() {
        Ok(command) => match command.execute(db, config, now) {
            Ok(f) => f,
            Err(e) => error_reply(&e),
        },
        Err(e) => error_reply(&e),
    }
}

/// Serves the bytes that a connection has received so far, at the moment
/// `now`.
pub fn handle(input: &[u8], db: &mut Db, config: &RedisConfig, now: u64) -> (r: Served)
    requires
        old(db).wf(),
    ensures
        final(db).wf(),
        final(db)@ == store_after_input(input@, old(db)@, now as nat),
        r@ == served(input@, old(db)@, config@, now as nat),
{
    match read_frame(input) {
        Ok(Some((request, used))) => {
            let answer = respond(request, db, config, now);
            Served::Reply { reply: answer.to_bytes(), used }
        },
        Ok(None) => {
            assert(decode(input@) is Short);
            Served::Closed
        },
        Err(RedisError::Io(_)) => Served::NeedMore,
        Err(e) => {
            let answer = error_reply(&e);
            Served::Reply { reply: answer.to_bytes(), used: input.len() }
        },
    }
}

} // verus!
