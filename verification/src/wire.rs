//! The byte-order types of the `zerocopy` crate, which lay out the integer
//! fields of the tables' fixed-format structures.
//!
//! What this module states of them is believed, not proved.

use crate::encoding::{le_bytes_u16, le_bytes_u32, le_bytes_u64};
use vstd::prelude::*;

verus! {

/// The two bytes of a `zerocopy::byteorder::U16` of little-endian byte order
/// that was made by `U16::new(v)`, taken out by its conversion into an array.
/// `new` writes `v` in the type's byte order, so the bytes are the
/// little-endian encoding of `v`.
#[verifier::external_body]
pub(crate) fn wire_u16(v: u16) -> (r: [u8; 2])
    ensures
        r@ == le_bytes_u16(v),
{
    zerocopy::byteorder::U16::<zerocopy::byteorder::LE>::new(v).into()
}

/// The four bytes of a `zerocopy::byteorder::U32` of little-endian byte order
/// that was made by `U32::new(v)`, taken out by its conversion into an array:
/// the little-endian encoding of `v`.
#[verifier::external_body]
pub(crate) fn wire_u32(v: u32) -> (r: [u8; 4])
    ensures
        r@ == le_bytes_u32(v),
{
    zerocopy::byteorder::U32::<zerocopy::byteorder::LE>::new(v).into()
}

/// The eight bytes of a `zerocopy::byteorder::U64` of little-endian byte
/// order that was made by `U64::new(v)`, taken out by its conversion into an
/// array: the little-endian encoding of `v`.
#[verifier::external_body]
pub(crate) fn wire_u64(v: u64) -> (r: [u8; 8])
    ensures
        r@ == le_bytes_u64(v),
{
    zerocopy::byteorder::U64::<zerocopy::byteorder::LE>::new(v).into()
}

} // verus!
