//! Decoding frames from the bytes that a connection has delivered so far.
//!
//! Every reader looks at the input from a position onwards and either finds a
//! complete value, finds that the input ends too early, or finds bytes that
//! no valid frame can start with.

use crate::buffer::bytes_from_vec;
use crate::decimal::{parse_decimal, parse_u64};
use crate::error::{ErrorView, RedisError};
use crate::frame::{lemma_array_view, Frame, FrameView};
use crate::util::{str_from_utf8, syntax_message};
use vstd::prelude::*;
use vstd::slice::{slice_subrange, slice_to_vec};
use vstd::utf8::{decode_utf8, valid_utf8};

verus! {

/// What reading a value from the start of a byte sequence gives.
pub enum Scan<T> {
    /// A complete value, and the number of bytes it took.
    Done { value: T, used: int },
    /// The bytes end before the value does.
    Short,
    /// The bytes cannot be the start of a value.
    Bad,
}

/// What reading a value from a position of the input gives.
pub enum Step<T> {
    /// A complete value, and the position just behind it.
    Done(T, usize),
    /// The input ends before the value does.
    Short,
    /// The input is malformed at this position.
    Bad,
}

/// True when a line terminator starts at index `i` of `s`.
pub open spec fn crlf_at(s: Seq<u8>, i: int) -> bool {
    0 <= i && i + 1 < s.len() && s[i] == 13 && s[i + 1] == 10
}

/// The index of the first line terminator of `s` at or after `from`, or `-1`
/// when there is none.
pub open spec fn line_end(s: Seq<u8>, from: int) -> int
    decreases s.len() - from,
{
    if from < 0 || from + 1 >= s.len() {
        -1
    } else if crlf_at(s, from) {
        from
    } else {
        line_end(s, from + 1)
    }
}

/// A line: the bytes before the first terminator.
pub open spec fn scan_line(s: Seq<u8>) -> Scan<Seq<u8>> {
    let e = line_end(s, 0);
    if e < 0 {
        Scan::Short
    } else {
        Scan::Done { value: s.take(e), used: e + 2 }
    }
}

/// A line that is an unsigned decimal number.
pub open spec fn scan_decimal(s: Seq<u8>) -> Scan<u64> {
    match scan_line(s) {
        Scan::Done { value, used } => match parse_decimal(value) {
            Some(n) => Scan::Done { value: n, used },
            None => Scan::Bad,
        },
        Scan::Short => Scan::Short,
        Scan::Bad => Scan::Bad,
    }
}

/// A line that is UTF-8 text.
pub open spec fn scan_text(s: Seq<u8>) -> Scan<Seq<char>> {
    match scan_line(s) {
        Scan::Done { value, used } => if valid_utf8(value) {
            Scan::Done { value: decode_utf8(value), used }
        } else {
            Scan::Bad
        },
        Scan::Short => Scan::Short,
        Scan::Bad => Scan::Bad,
    }
}

/// Exactly `m` bytes and the terminator that must follow them.
pub open spec fn scan_payload(s: Seq<u8>, m: int) -> Scan<Seq<u8>> {
    if s.len() < m + 2 {
        Scan::Short
    } else if crlf_at(s, m) {
        Scan::Done { value: s.take(m), used: m + 2 }
    } else {
        Scan::Bad
    }
}

/// A length line and then a payload of that length.
pub open spec fn scan_bulk(s: Seq<u8>) -> Scan<Seq<u8>> {
    match scan_decimal(s) {
        Scan::Done { value, used } => match scan_payload(s.skip(used), value as int) {
            Scan::Done { value: body, used: more } => Scan::Done { value: body, used: used + more },
            Scan::Short => Scan::Short,
            Scan::Bad => Scan::Bad,
        },
        Scan::Short => Scan::Short,
        Scan::Bad => Scan::Bad,
    }
}

/// One scalar value: the prefix byte decides what follows.
pub open spec fn scan_value(s: Seq<u8>) -> Scan<FrameView> {
    if s.len() == 0 {
        Scan::Short
    } else if s[0] == 43 {
        match scan_text(s.skip(1)) {
            Scan::Done { value, used } => Scan::Done { value: FrameView::Simple(value), used: used + 1 },
            Scan::Short => Scan::Short,
            Scan::Bad => Scan::Bad,
        }
    } else if s[0] == 45 {
        match scan_text(s.skip(1)) {
            Scan::Done { value, used } => Scan::Done { value: FrameView::Error(value), used: used + 1 },
            Scan::Short => Scan::Short,
            Scan::Bad => Scan::Bad,
        }
    } else if s[0] == 58 {
        match scan_decimal(s.skip(1)) {
            Scan::Done { value, used } => Scan::Done { value: FrameView::Integer(value), used: used + 1 },
            Scan::Short => Scan::Short,
            Scan::Bad => Scan::Bad,
        }
    } else if s[0] == 36 {
        match scan_bulk(s.skip(1)) {
            Scan::Done { value, used } => Scan::Done { value: FrameView::Bulk(value), used: used + 1 },
            Scan::Short => Scan::Short,
            Scan::Bad => Scan::Bad,
        }
    } else {
        Scan::Bad
    }
}

/// The first `n` scalar values of `s`, one after the other.
pub open spec fn scan_items(s: Seq<u8>, n: nat) -> Scan<Seq<FrameView>>
    decreases n,
{
    if n == 0 {
        Scan::Done { value: Seq::<FrameView>::empty(), used: 0 }
    } else {
        match scan_items(s, (n - 1) as nat) {
            Scan::Done { value: items, used } => match scan_value(s.skip(used)) {
                Scan::Done { value: item, used: more } => Scan::Done {
                    value: items.push(item),
                    used: used + more,
                },
                Scan::Short => Scan::Short,
                Scan::Bad => Scan::Bad,
            },
            Scan::Short => Scan::Short,
            Scan::Bad => Scan::Bad,
        }
    }
}

/// One frame: an array header with its elements, or a single scalar value.
pub open spec fn decode(s: Seq<u8>) -> Scan<FrameView> {
    if s.len() > 0 && s[0] == 42 {
        match scan_decimal(s.skip(1)) {
            Scan::Done { value: n, used } => match scan_items(s.skip(1 + used), n as nat) {
                Scan::Done { value: items, used: more } => Scan::Done {
                    value: FrameView::Array(items),
                    used: 1 + used + more,
                },
                Scan::Short => Scan::Short,
                Scan::Bad => Scan::Bad,
            },
            Scan::Short => Scan::Short,
            Scan::Bad => Scan::Bad,
        }
    } else {
        scan_value(s)
    }
}

/// The first line terminator found from `from` on is a terminator, lies at or
/// after `from`, and no terminator lies between.
pub proof fn lemma_line_end(s: Seq<u8>, from: int)
    requires
        0 <= from,
    ensures
        line_end(s, from) == -1 || (from <= line_end(s, from) && crlf_at(s, line_end(s, from))),
        forall|j: int|
            from <= j && (j < line_end(s, from) || line_end(s, from) == -1) ==> !crlf_at(s, j),
    decreases s.len() - from,
{
    if from + 1 >= s.len() {
    } else if crlf_at(s, from) {
    } else {
        lemma_line_end(s, from + 1);
    }
}

/// Reads the line that starts at `pos`: the bytes up to the first terminator.
pub fn read_line<'a>(input: &'a [u8], pos: usize) -> (r: Step<&'a [u8]>)
    requires
        pos <= input@.len(),
    ensures
        match r {
            Step::Done(line, next) => pos <= next <= input@.len() && scan_line(
                input@.skip(pos as int),
            ) == (Scan::Done { value: line@, used: next - pos }),
            Step::Short => scan_line(input@.skip(pos as int)) is Short,
            Step::Bad => false,
        },
{
    let n: usize = input.len();
    let ghost s = input@.skip(pos as int);
    let mut i: usize = pos;
    while n - i >= 2
        invariant
            pos <= i <= n,
            n == input@.len(),
            s == input@.skip(pos as int),
            line_end(s, 0) == line_end(s, i - pos),
        decreases n - i,
    {
        assert(s[i - pos] == input@[i as int]);
        assert(s[i - pos + 1] == input@[i + 1]);
        if input[i] == 13 && input[i + 1] == 10 {
            let line = slice_subrange(input, pos, i);
            assert(line@ =~= s.take(i - pos));
            return Step::Done(line, i + 2);
        }
        i = i + 1;
    }
    Step::Short
}

/// Reads the line that starts at `pos` as an unsigned decimal number.
pub fn read_decimal(input: &[u8], pos: usize) -> (r: Step<u64>)
    requires
        pos <= input@.len(),
    ensures
        match r {
            Step::Done(n, next) => pos <= next <= input@.len() && scan_decimal(
                input@.skip(pos as int),
            ) == (Scan::Done { value: n, used: next - pos }),
            Step::Short => scan_decimal(input@.skip(pos as int)) is Short,
            Step::Bad => scan_decimal(input@.skip(pos as int)) is Bad,
        },
{
    match read_line(input, pos) {
        Step::Done(line, next) => match parse_u64(line) {
            Some(n) => Step::Done(n, next),
            None => Step::Bad,
        },
        Step::Short => Step::Short,
        Step::Bad => Step::Bad,
    }
}

/// Reads exactly `m` bytes from `pos` and the terminator behind them.
pub fn read_exact<'a>(input: &'a [u8], pos: usize, m: u64) -> (r: Step<&'a [u8]>)
    requires
        pos <= input@.len(),
    ensures
        match r {
            Step::Done(body, next) => pos <= next <= input@.len() && scan_payload(
                input@.skip(pos as int),
                m as int,
            ) == (Scan::Done { value: body@, used: next - pos }),
            Step::Short => scan_payload(input@.skip(pos as int), m as int) is Short,
            Step::Bad => scan_payload(input@.skip(pos as int), m as int) is Bad,
        },
{
    let n: usize = input.len();
    let left: usize = n - pos;
    if left < 2 || ((left - 2) as u64) < m {
        return Step::Short;
    }
    let end: usize = pos + (m as usize);
    let ghost s = input@.skip(pos as int);
    assert(s[m as int] == input@[end as int]);
    assert(s[m as int + 1] == input@[end + 1]);
    if input[end] == 13 && input[end + 1] == 10 {
        let body = slice_subrange(input, pos, end);
        assert(body@ =~= s.take(m as int));
        Step::Done(body, end + 2)
    } else {
        Step::Bad
    }
}

/// Reads one scalar value from `pos`.
pub fn read_value(input: &[u8], pos: usize) -> (r: Step<Frame>)
    requires
        pos <= input@.len(),
    ensures
        match r {
            Step::Done(frame, next) => pos <= next <= input@.len() && scan_value(
                input@.skip(pos as int),
            ) == (Scan::Done { value: frame@, used: next - pos }),
            Step::Short => scan_value(input@.skip(pos as int)) is Short,
            Step::Bad => scan_value(input@.skip(pos as int)) is Bad,
        },
{
    let ghost s = input@.skip(pos as int);
    if pos >= input.len() {
        return Step::Short;
    }
    let prefix: u8 = input[pos];
    assert(s[0] == prefix);
    let at: usize = pos + 1;
    assert(s.skip(1) =~= input@.skip(at as int));
    if prefix == 43 || prefix == 45 {
        match read_line(input, at) {
            Step::Done(line, next) => match str_from_utf8(line) {
                Some(text) => {
                    if prefix == 43 {
                        Step::Done(Frame::Simple(text.to_owned()), next)
                    } else {
                        Step::Done(Frame::Error(text.to_owned()), next)
                    }
                },
                None => Step::Bad,
            },
            Step::Short => Step::Short,
            Step::Bad => Step::Bad,
        }
    } else if prefix == 58 {
        match read_decimal(input, at) {
            Step::Done(n, next) => Step::Done(Frame::Integer(n), next),
            Step::Short => Step::Short,
            Step::Bad => Step::Bad,
        }
    } else if prefix == 36 {
        match read_decimal(input, at) {
            Step::Done(m, mid) => {
                assert(s.skip(1).skip(mid - at) =~= input@.skip(mid as int));
                match read_exact(input, mid, m) {
                    Step::Done(body, next) => {
                        let bulk = bytes_from_vec(slice_to_vec(body));
                        Step::Done(Frame::Bulk(bulk), next)
                    },
                    Step::Short => Step::Short,
                    Step::Bad => Step::Bad,
                }
            },
            Step::Short => Step::Short,
            Step::Bad => Step::Bad,
        }
    } else {
        Step::Bad
    }
}

/// The message of the error for a stream that ends inside a frame.
pub open spec fn truncated_message() -> Seq<char> {
    "unexpected end of stream"@
}

/// Reads one frame from the start of `input`.
///
/// No bytes at all is the clean end of the stream and gives `None`. A frame
/// comes with the number of bytes it took. Input that ends inside a frame is a
/// transport error, malformed input a syntax error.
pub fn read_frame(input: &[u8]) -> (r: Result<Option<(Frame, usize)>, RedisError>)
    ensures
        match r {
            Ok(None) => input@.len() == 0,
            Ok(Some((frame, used))) => input@.len() > 0 && used <= input@.len() && decode(input@)
                == (Scan::Done { value: frame@, used: used as int }),
            Err(e) => input@.len() > 0 && match e@ {
                ErrorView::Io(m) => decode(input@) is Short && m == truncated_message(),
                ErrorView::SyntaxErr(m) => decode(input@) is Bad && m == syntax_message(),
                ErrorView::InComplete => false,
            },
        },
{
    if input.len() == 0 {
        return Ok(None);
    }
    let step: Step<Frame> = if input[0] == 42 {
        read_array(input)
    } else {
        assert(input@.skip(0) =~= input@);
        read_value(input, 0)
    };
    match step {
        Step::Done(frame, used) => Ok(Some((frame, used))),
        Step::Short => Err(RedisError::io_err("unexpected end of stream")),
        Step::Bad => Err(RedisError::syntax_err("syntax error")),
    }
}

/// Reads an array frame from the start of `input`: the count, then that many
/// scalar values.
fn read_array(input: &[u8]) -> (r: Step<Frame>)
    requires
        input@.len() > 0,
        input@[0] == 42,
    ensures
        match r {
            Step::Done(frame, next) => next <= input@.len() && decode(input@) == (Scan::Done {
                value: frame@,
                used: next as int,
            }),
            Step::Short => decode(input@) is Short,
            Step::Bad => decode(input@) is Bad,
        },
{
    match read_decimal(input, 1) {
        Step::Done(count, start) => {
            let ghost body = input@.skip(start as int);
            assert(input@.skip(1).skip(start - 1) =~= body);
            let mut frames: Vec<Frame> = Vec::new();
            let mut pos: usize = start;
            let mut i: u64 = 0;
            assert(Seq::new(0nat, |j: int| frames@[j]@) =~= Seq::<FrameView>::empty());
            while i < count
                invariant
                    i <= count,
                    1 <= start <= pos <= input@.len(),
                    input@[0] == 42,
                    scan_decimal(input@.skip(1)) == (Scan::Done { value: count, used: start - 1 }),
                    body == input@.skip(start as int),
                    frames@.len() == i,
                    scan_items(body, i as nat) == (Scan::Done {
                        value: Seq::new(i as nat, |j: int| frames@[j]@),
                        used: pos - start,
                    }),
                decreases count - i,
            {
                assert(body.skip(pos - start) =~= input@.skip(pos as int));
                match read_value(input, pos) {
                    Step::Done(frame, next) => {
                        let ghost before = Seq::new(i as nat, |j: int| frames@[j]@);
                        let ghost item = frame@;
                        frames.push(frame);
                        assert(Seq::new((i + 1) as nat, |j: int| frames@[j]@) =~= before.push(
                            item,
                        ));
                        pos = next;
                    },
                    Step::Short => {
                        proof {
                            lemma_scan_items_stops(body, (i + 1) as nat, count as nat);
                        }
                        return Step::Short;
                    },
                    Step::Bad => {
                        proof {
                            lemma_scan_items_stops(body, (i + 1) as nat, count as nat);
                        }
                        return Step::Bad;
                    },
                }
                i = i + 1;
            }
            proof {
                lemma_array_view(frames);
                assert(Frame::Array(frames)@->Array_0 =~= Seq::new(
                    count as nat,
                    |j: int| frames@[j]@,
                ));
            }
            Step::Done(Frame::Array(frames), pos)
        },
        Step::Short => Step::Short,
        Step::Bad => Step::Bad,
    }
}

/// Once reading the first `k` values has failed, reading more fails the same
/// way.
pub proof fn lemma_scan_items_stops(s: Seq<u8>, k: nat, n: nat)
    requires
        k <= n,
        !(scan_items(s, k) is Done),
    ensures
        scan_items(s, n) == scan_items(s, k),
    decreases n - k,
{
    if k < n {
        lemma_scan_items_stops(s, k, (n - 1) as nat);
    }
}

} // verus!
