//! What this library assumes of `tantivy::directory::OwnedBytes`, the shared immutable
//! byte buffer in which chunks are cached and results are handed out.
//!
//! Nothing in this file is proved. Each item states, over [`bytes_of`], what the
//! buffer's own source shows; the rest of the library is verified against these
//! statements.

use core::ops::Range;
use tantivy::directory::OwnedBytes;
use vstd::prelude::*;

verus! {

#[verifier::external_type_specification]
#[verifier::external_body]
pub struct ExOwnedBytes(OwnedBytes);

/// The bytes that a buffer exposes, in order.
pub uninterp spec fn bytes_of(b: OwnedBytes) -> Seq<u8>;

/// `OwnedBytes::new` on a `Vec<u8>`: the buffer takes the vector over and exposes
/// exactly its bytes.
#[verifier::external_body]
pub(crate) fn owned_from_vec(data: Vec<u8>) -> (b: OwnedBytes)
    ensures
        bytes_of(b) == data@,
{
    OwnedBytes::new(data)
}

/// `OwnedBytes::empty`: a buffer that exposes no byte.
pub assume_specification[ OwnedBytes::empty ]() -> (b: OwnedBytes)
    ensures
        bytes_of(b) == Seq::<u8>::empty(),
;

/// `OwnedBytes::len`: the number of bytes that the buffer exposes.
pub assume_specification[ OwnedBytes::len ](b: &OwnedBytes) -> (n: usize)
    ensures
        n == bytes_of(*b).len(),
;

/// `OwnedBytes::slice`: a buffer over the bytes `range.start..range.end` of `b`,
/// sharing `b`'s storage. It indexes the exposed bytes by `range`, which panics
/// unless `start <= end <= len`.
pub assume_specification[ OwnedBytes::slice ](b: &OwnedBytes, range: Range<usize>) -> (s:
    OwnedBytes)
    requires
        range.start <= range.end <= bytes_of(*b).len(),
    ensures
        bytes_of(s) == bytes_of(*b).subrange(range.start as int, range.end as int),
;

/// `OwnedBytes::as_slice`: the exposed bytes as a slice.
pub assume_specification<'a>[ OwnedBytes::as_slice ](b: &'a OwnedBytes) -> (s: &'a [u8])
    ensures
        s@ == bytes_of(*b),
;

/// `OwnedBytes::clone`, which the buffer derives: a second handle on the same
/// storage, exposing the same bytes.
pub assume_specification[ <OwnedBytes as Clone>::clone ](b: &OwnedBytes) -> (c: OwnedBytes)
    ensures
        bytes_of(c) == bytes_of(*b),
;

} // verus!
