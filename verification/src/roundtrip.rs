//! Encoding and decoding are inverse to each other on the frames that can
//! travel over the wire.

use crate::decimal::{decimal, is_digit, lemma_decimal_digits, lemma_parse_decimal_of_decimal};
use crate::frame::{crlf, encode, encode_all, FrameView};
use crate::stream::{crlf_at, decode, line_end, scan_bulk, scan_decimal, scan_items, scan_line, scan_payload, scan_text, scan_value, Scan};
use vstd::prelude::*;
use vstd::utf8::{encode_utf8, encode_utf8_decode_utf8, encode_utf8_valid_utf8};

verus! {

/// True when a line terminator occurs somewhere in `s`.
pub open spec fn has_crlf(s: Seq<u8>) -> bool {
    exists|i: int| crlf_at(s, i)
}

/// The scalar values that a reader can produce: text without a line
/// terminator in it, any number, and any payload whose length can be written.
/// The null value has no reading: its length line is not a number.
pub open spec fn scalar_on_wire(f: FrameView) -> bool {
    match f {
        FrameView::Simple(t) => !has_crlf(encode_utf8(t)),
        FrameView::Error(t) => !has_crlf(encode_utf8(t)),
        FrameView::Integer(_) => true,
        FrameView::Bulk(b) => b.len() <= u64::MAX,
        FrameView::Null => false,
        FrameView::Array(_) => false,
    }
}

/// True when every frame of `v` is a scalar that a reader can produce.
pub open spec fn all_scalars(v: Seq<FrameView>) -> bool {
    forall|i: int| 0 <= i < v.len() ==> scalar_on_wire(#[trigger] v[i])
}

/// The frames that a reader can produce: the scalars above, and arrays of
/// them.
pub open spec fn on_wire(f: FrameView) -> bool {
    match f {
        FrameView::Array(v) => v.len() <= u64::MAX && all_scalars(v),
        _ => scalar_on_wire(f),
    }
}

/// A terminator at `e` with none between `from` and `e` is the first one
/// found from `from` on.
pub proof fn lemma_line_end_is(s: Seq<u8>, from: int, e: int)
    requires
        0 <= from <= e,
        crlf_at(s, e),
        forall|j: int| from <= j < e ==> !crlf_at(s, j),
    ensures
        line_end(s, from) == e,
    decreases e - from,
{
    if from < e {
        lemma_line_end_is(s, from + 1, e);
    }
}

/// A line without a terminator in it, followed by a terminator, is read back
/// as that line, whatever comes behind.
pub proof fn lemma_scan_line_of_line(line: Seq<u8>, rest: Seq<u8>)
    requires
        !has_crlf(line),
    ensures
        scan_line(line + crlf() + rest) == (Scan::Done { value: line, used: line.len() as int + 2 }),
{
    let s = line + crlf() + rest;
    let e = line.len() as int;
    assert(s[e] == 13 && s[e + 1] == 10);
    assert forall|j: int| 0 <= j < e implies !crlf_at(s, j) by {
        if crlf_at(s, j) {
            if j + 1 < e {
                assert(line[j] == s[j] && line[j + 1] == s[j + 1]);
                assert(crlf_at(line, j));
            } else {
                assert(s[j + 1] == 13);
            }
        }
    }
    lemma_line_end_is(s, 0, e);
    assert(s.take(e) =~= line);
}

/// The digits of a number hold no line terminator.
pub proof fn lemma_decimal_has_no_crlf(n: nat)
    ensures
        !has_crlf(decimal(n)),
{
    lemma_decimal_digits(n);
    let d = decimal(n);
    assert forall|i: int| !crlf_at(d, i) by {
        if crlf_at(d, i) {
            assert(is_digit(d[i]));
        }
    }
}

/// A written number, followed by a terminator, is read back as that number.
pub proof fn lemma_scan_decimal_of_decimal(n: u64, rest: Seq<u8>)
    ensures
        scan_decimal(decimal(n as nat) + crlf() + rest) == (Scan::Done {
            value: n,
            used: decimal(n as nat).len() as int + 2,
        }),
{
    lemma_decimal_has_no_crlf(n as nat);
    lemma_scan_line_of_line(decimal(n as nat), rest);
    lemma_parse_decimal_of_decimal(n);
}

/// Encoded text, followed by a terminator, is read back as that text.
pub proof fn lemma_scan_text_of_text(t: Seq<char>, rest: Seq<u8>)
    requires
        !has_crlf(encode_utf8(t)),
    ensures
        scan_text(encode_utf8(t) + crlf() + rest) == (Scan::Done {
            value: t,
            used: encode_utf8(t).len() as int + 2,
        }),
{
    lemma_scan_line_of_line(encode_utf8(t), rest);
    encode_utf8_valid_utf8(t);
    encode_utf8_decode_utf8(t);
}

/// A length line, the payload and its terminator are read back as the
/// payload.
pub proof fn lemma_scan_bulk_of_bulk(b: Seq<u8>, rest: Seq<u8>)
    requires
        b.len() <= u64::MAX,
    ensures
        scan_bulk(decimal(b.len()) + crlf() + b + crlf() + rest) == (Scan::Done {
            value: b,
            used: decimal(b.len()).len() as int + 2 + b.len() as int + 2,
        }),
{
    let d = decimal(b.len());
    let s = d + crlf() + b + crlf() + rest;
    let tail = b + crlf() + rest;
    assert(s =~= d + crlf() + tail);
    lemma_scan_decimal_of_decimal(b.len() as u64, tail);
    assert(s.skip(d.len() as int + 2) =~= tail);
    let m = b.len() as int;
    assert(tail[m] == 13 && tail[m + 1] == 10);
    assert(tail.take(m) =~= b);
    assert(scan_payload(tail, m) == (Scan::Done { value: b, used: m + 2 }));
}

/// A scalar that a reader can produce is read back from its encoding,
/// whatever comes behind.
pub proof fn lemma_scan_value_of_encode(f: FrameView, rest: Seq<u8>)
    requires
        scalar_on_wire(f),
    ensures
        scan_value(encode(f) + rest) == (Scan::Done { value: f, used: encode(f).len() as int }),
{
    let s = encode(f) + rest;
    match f {
        FrameView::Simple(t) => {
            assert(s.skip(1) =~= encode_utf8(t) + crlf() + rest);
            lemma_scan_text_of_text(t, rest);
        },
        FrameView::Error(t) => {
            assert(s.skip(1) =~= encode_utf8(t) + crlf() + rest);
            lemma_scan_text_of_text(t, rest);
        },
        FrameView::Integer(n) => {
            assert(s.skip(1) =~= decimal(n as nat) + crlf() + rest);
            lemma_scan_decimal_of_decimal(n, rest);
        },
        FrameView::Bulk(b) => {
            assert(s.skip(1) =~= decimal(b.len()) + crlf() + b + crlf() + rest);
            lemma_scan_bulk_of_bulk(b, rest);
        },
        FrameView::Null => {},
        FrameView::Array(_) => {},
    }
}

/// A run of scalars is read back from its encoding, one after the other.
pub proof fn lemma_scan_items_of_encode(v: Seq<FrameView>, rest: Seq<u8>)
    requires
        all_scalars(v),
    ensures
        scan_items(encode_all(v) + rest, v.len()) == (Scan::Done {
            value: v,
            used: encode_all(v).len() as int,
        }),
    decreases v.len(),
{
    let s = encode_all(v) + rest;
    if v.len() == 0 {
        assert(v =~= Seq::<FrameView>::empty());
    } else {
        let front = v.drop_last();
        let last = v.last();
        let tail = encode(last) + rest;
        assert(s =~= encode_all(front) + tail);
        assert(all_scalars(front)) by {
            assert forall|i: int| 0 <= i < front.len() implies scalar_on_wire(
                #[trigger] front[i],
            ) by {
                assert(front[i] == v[i]);
            }
        }
        lemma_scan_items_of_encode(front, tail);
        assert(s.skip(encode_all(front).len() as int) =~= tail);
        lemma_scan_value_of_encode(last, rest);
        assert(front.push(last) =~= v);
    }
}

/// Decoding the encoding of a frame that a reader can produce gives the frame
/// back and takes exactly its bytes, whatever comes behind.
pub proof fn lemma_decode_encode_prefix(f: FrameView, rest: Seq<u8>)
    requires
        on_wire(f),
    ensures
        decode(encode(f) + rest) == (Scan::Done { value: f, used: encode(f).len() as int }),
{
    let s = encode(f) + rest;
    match f {
        FrameView::Array(v) => {
            let d = decimal(v.len());
            let tail = encode_all(v) + rest;
            assert(s.skip(1) =~= d + crlf() + tail);
            lemma_scan_decimal_of_decimal(v.len() as u64, tail);
            assert(s.skip(1 + (d.len() as int + 2)) =~= tail);
            lemma_scan_items_of_encode(v, rest);
        },
        _ => {
            lemma_scan_value_of_encode(f, rest);
            assert(s[0] != 42);
        },
    }
}

/// Round trip: decoding the encoding of a frame that a reader can produce
/// gives exactly that frame.
pub proof fn lemma_decode_encode(f: FrameView)
    requires
        on_wire(f),
    ensures
        decode(encode(f)) == (Scan::Done { value: f, used: encode(f).len() as int }),
{
    lemma_decode_encode_prefix(f, Seq::<u8>::empty());
    assert(encode(f) + Seq::<u8>::empty() =~= encode(f));
}

} // verus!
