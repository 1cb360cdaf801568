//! One wire value and its exact encoding.

use crate::buffer::{bytes_as_slice, bytes_view};
use crate::decimal::{decimal, push_decimal};
use bytes::Bytes;
use vstd::prelude::*;
use vstd::utf8::encode_utf8;

verus! {

/// One value of the wire protocol.
#[derive(Debug, PartialEq)]
pub enum Frame {
    /// `+<text>\r\n`
    Simple(String),
    /// `-<text>\r\n`
    Error(String),
    /// `:<number>\r\n`
    Integer(u64),
    /// `$<length>\r\n<bytes>\r\n`
    Bulk(Bytes),
    /// `$-1\r\n`
    Null,
    /// `*<count>\r\n` and then each element
    Array(Vec<Frame>),
}

/// The mathematical value of a `Frame`.
pub enum FrameView {
    Simple(Seq<char>),
    Error(Seq<char>),
    Integer(u64),
    Bulk(Seq<u8>),
    Null,
    Array(Seq<FrameView>),
}

impl View for Frame {
    type V = FrameView;

    open spec fn view(&self) -> FrameView
        decreases self,
    {
        match self {
            Frame::Simple(s) => FrameView::Simple(s@),
            Frame::Error(s) => FrameView::Error(s@),
            Frame::Integer(n) => FrameView::Integer(*n),
            Frame::Bulk(b) => FrameView::Bulk(bytes_view(*b)),
            Frame::Null => FrameView::Null,
            Frame::Array(v) => FrameView::Array(
                Seq::new(
                    v.len() as nat,
                    |i: int|
                        if 0 <= i < v.len() {
                            v[i]@
                        } else {
                            FrameView::Null
                        },
                ),
            ),
        }
    }
}

/// The view of an array frame, element by element.
pub proof fn lemma_array_view(items: Vec<Frame>)
    ensures
        Frame::Array(items)@ is Array,
        Frame::Array(items)@->Array_0.len() == items@.len(),
        forall|i: int|
            0 <= i < items@.len() ==> (#[trigger] Frame::Array(items)@->Array_0[i]) == items@[i]@,
{
    reveal_with_fuel(<Frame as View>::view, 2);
}

impl Frame {
    /// A copy of this frame with the same view.
    pub fn duplicate(&self) -> (c: Frame)
        ensures
            c@ == self@,
        decreases self,
    {
        match self {
            Frame::Simple(s) => Frame::Simple(s.clone()),
            Frame::Error(s) => Frame::Error(s.clone()),
            Frame::Integer(n) => Frame::Integer(*n),
            Frame::Bulk(b) => Frame::Bulk(b.clone()),
            Frame::Null => Frame::Null,
            Frame::Array(items) => {
                let n: usize = items.len();
                let mut copy: Vec<Frame> = Vec::new();
                let mut i: usize = 0;
                while i < n
                    invariant
                        i <= n,
                        n == items@.len(),
                        decreases_to!(*self => *items),
                        copy@.len() == i,
                        forall|j: int| 0 <= j < i ==> (#[trigger] copy@[j])@ == items@[j]@,
                    decreases n - i,
                {
                    proof {
                        vstd::std_specs::vec::axiom_vec_index_decreases(*items, i as int);
                    }
                    copy.push(items[i].duplicate());
                    i = i + 1;
                }
                proof {
                    lemma_array_view(*items);
                    lemma_array_view(copy);
                }
                let c = Frame::Array(copy);
                assert(c@->Array_0 =~= self@->Array_0);
                c
            },
        }
    }
}

impl Clone for Frame {
    fn clone(&self) -> (c: Frame)
        ensures
            c@ == self@,
    {
        self.duplicate()
    }
}

impl Default for Frame {
    fn default() -> (f: Frame)
        ensures
            f@ == FrameView::Null,
    {
        Frame::Null
    }
}

/// The two bytes that end every line.
pub open spec fn crlf() -> Seq<u8> {
    seq![13u8, 10u8]
}

/// The wire bytes of a frame.
pub open spec fn encode(f: FrameView) -> Seq<u8>
    decreases f,
{
    match f {
        FrameView::Simple(s) => seq![43u8] + encode_utf8(s) + crlf(),
        FrameView::Error(s) => seq![45u8] + encode_utf8(s) + crlf(),
        FrameView::Integer(n) => seq![58u8] + decimal(n as nat) + crlf(),
        FrameView::Bulk(b) => seq![36u8] + decimal(b.len()) + crlf() + b + crlf(),
        FrameView::Null => seq![36u8, 45u8, 49u8, 13u8, 10u8],
        FrameView::Array(v) => seq![42u8] + decimal(v.len()) + crlf() + encode_all(v),
    }
}

/// The wire bytes of a run of frames, one after the other.
pub open spec fn encode_all(v: Seq<FrameView>) -> Seq<u8>
    decreases v,
{
    if v.len() == 0 {
        Seq::<u8>::empty()
    } else {
        encode_all(v.drop_last()) + encode(v.last())
    }
}

/// Appends the bytes of `src` to `out`.
pub fn append_bytes(out: &mut Vec<u8>, src: &[u8])
    ensures
        final(out)@ == old(out)@ + src@,
{
    let n: usize = src.len();
    let mut i: usize = 0;
    while i < n
        invariant
            i <= n,
            n == src@.len(),
            out@ == old(out)@ + src@.take(i as int),
        decreases n - i,
    {
        out.push(src[i]);
        assert(src@.take(i + 1) =~= src@.take(i as int).push(src@[i as int]));
        i = i + 1;
    }
    assert(src@.take(n as int) =~= src@);
}

/// Appends the line terminator to `out`.
fn push_crlf(out: &mut Vec<u8>)
    ensures
        final(out)@ == old(out)@ + crlf(),
{
    out.push(13u8);
    out.push(10u8);
    assert(out@ =~= old(out)@ + crlf());
}

/// Appends the wire bytes of one value to `out`.
pub fn write_value(out: &mut Vec<u8>, frame: &Frame)
    ensures
        final(out)@ == old(out)@ + encode(frame@),
    decreases frame, (if frame is Array { 1int } else { 0int }),
{
    match frame {
        Frame::Simple(s) => {
            out.push(43u8);
            append_bytes(out, s.as_str().as_bytes());
            push_crlf(out);
            assert(out@ =~= old(out)@ + encode(frame@));
        },
        Frame::Error(s) => {
            out.push(45u8);
            append_bytes(out, s.as_str().as_bytes());
            push_crlf(out);
            assert(out@ =~= old(out)@ + encode(frame@));
        },
        Frame::Integer(n) => {
            out.push(58u8);
            push_decimal(out, *n);
            push_crlf(out);
            assert(out@ =~= old(out)@ + encode(frame@));
        },
        Frame::Bulk(b) => {
            let body = bytes_as_slice(b);
            out.push(36u8);
            push_decimal(out, body.len() as u64);
            push_crlf(out);
            append_bytes(out, body);
            push_crlf(out);
            assert(out@ =~= old(out)@ + encode(frame@));
        },
        Frame::Null => {
            out.push(36u8);
            out.push(45u8);
            out.push(49u8);
            out.push(13u8);
            out.push(10u8);
            assert(out@ =~= old(out)@ + encode(frame@));
        },
        Frame::Array(_) => {
            write_frame(out, frame);
        },
    }
}

/// Appends the wire bytes of a frame to `out`: for an array its header and
/// then each element in turn, for any other frame the value itself.
pub fn write_frame(out: &mut Vec<u8>, frame: &Frame)
    ensures
        final(out)@ == old(out)@ + encode(frame@),
    decreases frame, (if frame is Array { 0int } else { 1int }),
{
    match frame {
        Frame::Array(items) => {
            let n: usize = items.len();
            out.push(42u8);
            push_decimal(out, n as u64);
            push_crlf(out);
            let ghost head = out@;
            let ghost views = frame@->Array_0;
            proof {
                lemma_array_view(*items);
            }
            assert(head =~= old(out)@ + (seq![42u8] + decimal(n as nat) + crlf()));
            let mut i: usize = 0;
            while i < n
                invariant
                    i <= n,
                    n == items@.len(),
                    frame == Frame::Array(*items),
                    views == frame@->Array_0,
                    views.len() == n,
                    forall|j: int| 0 <= j < n ==> (#[trigger] views[j]) == items@[j]@,
                    out@ == head + encode_all(views.take(i as int)),
                decreases n - i,
            {
                write_value(out, &items[i]);
                proof {
                    let t = views.take(i + 1);
                    assert(t.drop_last() =~= views.take(i as int));
                    assert(t.last() == items@[i as int]@);
                }
                i = i + 1;
            }
            assert(views.take(n as int) =~= views);
            assert(out@ =~= old(out)@ + encode(frame@));
        },
        _ => {
            write_value(out, frame);
        },
    }
}

impl Frame {
    /// The exact wire bytes of this frame.
    pub fn to_bytes(&self) -> (out: Vec<u8>)
        ensures
            out@ == encode(self@),
    {
        let mut out: Vec<u8> = Vec::new();
        write_frame(&mut out, self);
        out
    }
}

} // verus!
