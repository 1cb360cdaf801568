//! Decoding and partial delivery: what a reader has found in the bytes at
//! hand stays found when more bytes arrive, and what it finds is always a
//! frame that encoding gives back.

use crate::roundtrip::{all_scalars, has_crlf, on_wire, scalar_on_wire};
use crate::stream::{crlf_at, decode, lemma_line_end, line_end, scan_decimal, scan_items, scan_line, scan_payload, scan_value, Scan};
use vstd::prelude::*;
use vstd::utf8::{decode_utf8_encode_utf8, valid_utf8};

verus! {

/// A terminator that was found is found again, at the same place, when bytes
/// are added behind.
pub proof fn lemma_line_end_stable(s: Seq<u8>, more: Seq<u8>, from: int)
    requires
        0 <= from,
        line_end(s, from) >= 0,
    ensures
        line_end(s + more, from) == line_end(s, from),
    decreases s.len() - from,
{
    let t = s + more;
    if from + 1 < s.len() {
        assert(t[from] == s[from] && t[from + 1] == s[from + 1]);
        if !crlf_at(s, from) {
            lemma_line_end_stable(s, more, from + 1);
        }
    }
}

/// A line that was read takes at least its terminator and no more than there
/// is.
pub proof fn lemma_scan_line_bounds(s: Seq<u8>)
    ensures
        scan_line(s) matches Scan::Done { value, used } ==> 2 <= used <= s.len() && value.len()
            == used - 2 && !has_crlf(value),
        !(scan_line(s) is Bad),
{
    lemma_line_end(s, 0);
    if let Scan::Done { value, used } = scan_line(s) {
        let e = line_end(s, 0);
        assert forall|j: int| !crlf_at(value, j) by {
            if crlf_at(value, j) {
                assert(value[j] == s[j] && value[j + 1] == s[j + 1]);
                assert(crlf_at(s, j));
            }
        }
    }
}

/// A line that was read is read the same when bytes are added behind.
pub proof fn lemma_scan_line_stable(s: Seq<u8>, more: Seq<u8>)
    requires
        !(scan_line(s) is Short),
    ensures
        scan_line(s + more) == scan_line(s),
{
    lemma_line_end_stable(s, more, 0);
    lemma_line_end(s, 0);
    let e = line_end(s, 0);
    assert((s + more).take(e) =~= s.take(e));
}

/// A payload that was read, or found malformed, is the same when bytes are
/// added behind.
pub proof fn lemma_scan_payload_stable(s: Seq<u8>, m: int, more: Seq<u8>)
    requires
        0 <= m,
        !(scan_payload(s, m) is Short),
    ensures
        scan_payload(s + more, m) == scan_payload(s, m),
{
    let t = s + more;
    assert(t[m] == s[m] && t[m + 1] == s[m + 1]);
    assert(t.take(m) =~= s.take(m));
}

/// A scalar that was read takes at least one byte and no more than there is,
/// and is a frame that encoding gives back.
pub proof fn lemma_scan_value_bounds(s: Seq<u8>)
    ensures
        scan_value(s) matches Scan::Done { value, used } ==> 0 < used <= s.len() && scalar_on_wire(
            value,
        ),
{
    if s.len() > 0 {
        let t = s.skip(1);
        lemma_scan_line_bounds(t);
        if let Scan::Done { value: line, used } = scan_line(t) {
            if (s[0] == 43 || s[0] == 45) && valid_utf8(line) {
                decode_utf8_encode_utf8(line);
            }
            if s[0] == 36 {
                if let Scan::Done { value: m, used: head } = scan_decimal(t) {
                    let body = t.skip(head);
                    assert(body.len() == t.len() - head);
                }
            }
        }
    }
}

/// A scalar that was read, or found malformed, is the same when bytes are
/// added behind.
pub proof fn lemma_scan_value_stable(s: Seq<u8>, more: Seq<u8>)
    requires
        !(scan_value(s) is Short),
    ensures
        scan_value(s + more) == scan_value(s),
{
    let w = s + more;
    let t = s.skip(1);
    assert(w[0] == s[0]);
    assert(w.skip(1) =~= t + more);
    if s[0] == 43 || s[0] == 45 || s[0] == 58 || s[0] == 36 {
        lemma_scan_line_bounds(t);
        lemma_scan_line_stable(t, more);
        if s[0] == 36 {
            if let Scan::Done { value: m, used } = scan_decimal(t) {
                assert((t + more).skip(used) =~= t.skip(used) + more);
                lemma_scan_payload_stable(t.skip(used), m as int, more);
            }
        }
    }
}

/// A run of scalars that was read takes no more bytes than there are and
/// holds only frames that encoding gives back.
pub proof fn lemma_scan_items_bounds(s: Seq<u8>, n: nat)
    ensures
        scan_items(s, n) matches Scan::Done { value, used } ==> 0 <= used <= s.len()
            && value.len() == n && all_scalars(value),
    decreases n,
{
    if n > 0 {
        lemma_scan_items_bounds(s, (n - 1) as nat);
        if let Scan::Done { value: items, used } = scan_items(s, (n - 1) as nat) {
            lemma_scan_value_bounds(s.skip(used));
            if let Scan::Done { value: item, used: step } = scan_value(s.skip(used)) {
                let all = items.push(item);
                assert forall|i: int| 0 <= i < all.len() implies scalar_on_wire(
                    #[trigger] all[i],
                ) by {
                    if i < items.len() {
                        assert(all[i] == items[i]);
                    }
                }
            }
        }
    }
}

/// A run of scalars that was read, or found malformed, is the same when
/// bytes are added behind.
pub proof fn lemma_scan_items_stable(s: Seq<u8>, n: nat, more: Seq<u8>)
    requires
        !(scan_items(s, n) is Short),
    ensures
        scan_items(s + more, n) == scan_items(s, n),
    decreases n,
{
    if n > 0 {
        let k = (n - 1) as nat;
        lemma_scan_items_stable(s, k, more);
        lemma_scan_items_bounds(s, k);
        if let Scan::Done { value: items, used } = scan_items(s, k) {
            assert((s + more).skip(used) =~= s.skip(used) + more);
            lemma_scan_value_stable(s.skip(used), more);
        }
    }
}

/// Partial delivery does no harm: once the bytes at hand hold a whole frame,
/// or are malformed, bytes that arrive later change neither the frame, nor
/// the number of bytes it takes, nor the verdict.
pub proof fn lemma_decode_stable(s: Seq<u8>, more: Seq<u8>)
    requires
        !(decode(s) is Short),
    ensures
        decode(s + more) == decode(s),
{
    let w = s + more;
    if s.len() > 0 && s[0] == 42 {
        let t = s.skip(1);
        assert(w[0] == s[0]);
        assert(w.skip(1) =~= t + more);
        lemma_scan_line_bounds(t);
        lemma_scan_line_stable(t, more);
        if let Scan::Done { value: n, used } = scan_decimal(t) {
            assert(w.skip(1 + used) =~= s.skip(1 + used) + more);
            lemma_scan_items_stable(s.skip(1 + used), n as nat, more);
        }
    } else {
        lemma_scan_value_stable(s, more);
    }
}

/// Every frame that decoding gives is one that encoding and decoding give
/// back, and it takes at least one byte and no more than there are.
pub proof fn lemma_decoded_is_on_wire(s: Seq<u8>)
    ensures
        decode(s) matches Scan::Done { value, used } ==> 0 < used <= s.len() && on_wire(value),
{
    if s.len() > 0 && s[0] == 42 {
        let t = s.skip(1);
        lemma_scan_line_bounds(t);
        if let Scan::Done { value: n, used } = scan_decimal(t) {
            lemma_scan_items_bounds(s.skip(1 + used), n as nat);
        }
    } else {
        lemma_scan_value_bounds(s);
    }
}

} // verus!
