//! Builders for ACPI-style firmware description tables for RISC-V machines.
//!
//! A table is built in memory one substructure at a time. After every step it
//! serializes to a blob whose length field equals its byte count and whose
//! bytes sum to zero modulo 256.
//!
//! - [`sink`]: the destinations that structures serialize into, and the
//!   structures that can do so.
//! - [`checksum`]: the accumulator that keeps a table's checksum up to date
//!   while the table grows.
//! - [`header`]: the header that all tables share, and what it means for a
//!   header to seal a table.
//! - [`madt`], [`rhct`], [`rqsc`], [`xsdt`]: the tables. Each comes with a
//!   mathematical model of the table, which says what every operation does,
//!   and with the proofs that the model keeps the two invariants.
//! - [`gas`]: the address structure that a quality-of-service controller
//!   points to its registers with.
//! - [`encoding`]: byte sums and little-endian encodings.

pub mod checksum;
pub mod encoding;
pub mod gas;
pub mod header;
pub mod madt;
pub mod rhct;
pub mod rqsc;
pub mod sink;
mod wire;
pub mod xsdt;

pub use checksum::{u8sum, Checksum};
pub use header::TableHeader;
pub use sink::{Aml, AmlSink, SinkModel};

use crate::encoding::{balancing_byte, byte_sum, lemma_byte_sum_push};
use vstd::prelude::*;

verus! {

/// The creator identifier written into every table header: the ASCII
/// characters `RVAT`.
pub const CREATOR_ID: [u8; 4] = [0x52, 0x56, 0x41, 0x54];

/// The creator revision written into every table header.
pub const CREATOR_REVISION: [u8; 4] = [0, 0, 0, 1];

/// The byte that balances `data`: the byte which, placed after `data`, brings
/// the sum of all bytes to zero modulo 256.
pub fn generate_checksum(data: &[u8]) -> (r: u8)
    ensures
        r == balancing_byte(byte_sum(data@)),
        (byte_sum(data@) + r) % 256 == 0,
{
    let mut acc: u8 = 0;
    let mut i: usize = 0;
    while i < data.len()
        invariant
            i <= data.len(),
            acc == byte_sum(data@.take(i as int)) % 256,
        decreases data.len() - i,
    {
        let b: u8 = data[i];
        proof {
            assert(data@.take(i + 1) =~= data@.take(i as int).push(b));
            lemma_byte_sum_push(data@.take(i as int), b);
        }
        acc = acc.wrapping_add(b);
        i += 1;
    }
    proof {
        assert(data@.take(i as int) =~= data@);
    }
    (255 - acc).wrapping_add(1)
}

} // verus!
