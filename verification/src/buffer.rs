//! The boundary to `bytes::Bytes`, the shared byte buffer that carries bulk
//! payloads. Verus sees a `Bytes` value only through `bytes_view`.

use bytes::Bytes;
use vstd::prelude::*;

verus! {

/// `bytes::Bytes`, declared so that it can stand in fields and signatures.
/// The verifier sees nothing inside a value of it.
#[verifier::external_type_specification]
#[verifier::external_body]
pub struct ExBytes(bytes::Bytes);

/// The bytes that a `Bytes` buffer holds, in order. This only names the
/// content; what is known of it is what the items below say.
pub uninterp spec fn bytes_view(b: Bytes) -> Seq<u8>;

/// `Bytes::from(Vec<u8>)`: the buffer takes the vector over and holds exactly
/// its bytes. Nothing here is proved; the contract is the crate's documented
/// behaviour.
#[verifier::external_body]
pub(crate) fn bytes_from_vec(v: Vec<u8>) -> (b: Bytes)
    ensures
        bytes_view(b) == v@,
{
    Bytes::from(v)
}

/// `<Bytes as AsRef<[u8]>>::as_ref`: the slice handed out is the buffer's
/// content.
#[verifier::external_body]
pub(crate) fn bytes_as_slice(b: &Bytes) -> (s: &[u8])
    ensures
        s@ == bytes_view(*b),
{
    b.as_ref()
}

/// `<Bytes as Clone>::clone`: the copy shares the storage and holds the same
/// bytes.
pub assume_specification[ <Bytes as Clone>::clone ](b: &Bytes) -> (c: Bytes)
    ensures
        bytes_view(c) == bytes_view(*b),
;

} // verus!
