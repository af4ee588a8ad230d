//! The header that every table starts with.

use crate::checksum::lemma_running_sum;
use crate::encoding::{balanced, balancing_byte, byte_sum, le_bytes_u32, lemma_byte_sum_concat};
use crate::wire::wire_u32;
use vstd::prelude::*;

verus! {

/// The fixed-format header at the start of every table: 36 bytes on the wire.
#[derive(Clone, Copy, Debug)]
pub struct TableHeader {
    /// Four ASCII characters that name the table.
    pub signature: [u8; 4],
    /// The size of the whole table in bytes, header included.
    pub length: u32,
    pub revision: u8,
    /// The byte that brings the sum of all the table's bytes to zero modulo
    /// 256.
    pub checksum: u8,
    pub oem_id: [u8; 6],
    pub oem_table_id: [u8; 8],
    pub oem_revision: u32,
    pub creator_id: [u8; 4],
    pub creator_revision: [u8; 4],
}

/// The size of a serialized header.
pub const TABLE_HEADER_LEN: usize = 36;

impl TableHeader {
    /// The header on the wire: the fields in order, integers little-endian.
    pub open spec fn bytes(self) -> Seq<u8> {
        self.signature@ + le_bytes_u32(self.length) + seq![self.revision, self.checksum]
            + self.oem_id@ + self.oem_table_id@ + le_bytes_u32(self.oem_revision)
            + self.creator_id@ + self.creator_revision@
    }

    /// The sum of the header's bytes other than the length and checksum
    /// fields.
    pub open spec fn fixed_sum(self) -> int {
        byte_sum(self.signature@) + self.revision + byte_sum(self.oem_id@) + byte_sum(
            self.oem_table_id@,
        ) + byte_sum(le_bytes_u32(self.oem_revision)) + byte_sum(self.creator_id@) + byte_sum(
            self.creator_revision@,
        )
    }

    /// This header, with the length and checksum that a table needs whose
    /// bytes after the header are `rest`: the length is the size of the whole
    /// table, and the checksum balances the whole table.
    pub open spec fn sealing(self, rest: Seq<u8>) -> TableHeader {
        TableHeader {
            length: (36 + rest.len()) as u32,
            checksum: self.sealing_checksum(rest),
            ..self
        }
    }

    /// The checksum of a table that has this header and whose bytes after
    /// the header are `rest`: the byte that balances all other bytes of the
    /// table, the length field set to the table's size.
    #[verifier::opaque]
    pub open spec fn sealing_checksum(self, rest: Seq<u8>) -> u8 {
        let sized = TableHeader { length: (36 + rest.len()) as u32, checksum: 0, ..self };
        balancing_byte(byte_sum(sized.bytes() + rest))
    }

    /// This header without its length and checksum: what stays the same
    /// while a table grows.
    pub open spec fn identity(self) -> TableHeader {
        TableHeader { length: 0, checksum: 0, ..self }
    }

    /// Whether this header seals a table whose bytes after the header are
    /// `rest`.
    pub open spec fn seals(self, rest: Seq<u8>) -> bool {
        &&& 36 + rest.len() <= u32::MAX
        &&& self == self.sealing(rest)
    }

    /// The size of a serialized header.
    pub fn len() -> (r: usize)
        ensures
            r == 36,
    {
        TABLE_HEADER_LEN
    }

    /// The header on the wire.
    pub fn as_bytes(&self) -> (r: Vec<u8>)
        ensures
            r@ == self.bytes(),
            r@.len() == 36,
    {
        let mut v: Vec<u8> = Vec::new();
        v.extend_from_slice(self.signature.as_slice());
        let length: [u8; 4] = wire_u32(self.length);
        v.extend_from_slice(length.as_slice());
        v.push(self.revision);
        v.push(self.checksum);
        v.extend_from_slice(self.oem_id.as_slice());
        v.extend_from_slice(self.oem_table_id.as_slice());
        let oem_revision: [u8; 4] = wire_u32(self.oem_revision);
        v.extend_from_slice(oem_revision.as_slice());
        v.extend_from_slice(self.creator_id.as_slice());
        v.extend_from_slice(self.creator_revision.as_slice());
        assert(v@ =~= self.bytes());
        v
    }
}

/// Whether a table whose length field holds `length` can grow by `more`
/// bytes and still state its size in that field.
pub fn length_has_room(length: u32, more: usize) -> (r: bool)
    ensures
        r == (length + more <= u32::MAX),
{
    more <= (u32::MAX - length) as usize
}

/// The sum of a header's bytes is the sum of its fields' bytes.
pub proof fn lemma_header_sum(h: TableHeader)
    ensures
        byte_sum(h.bytes()) == h.fixed_sum() + byte_sum(le_bytes_u32(h.length)) + h.checksum,
{
    let a = h.signature@;
    let b = le_bytes_u32(h.length);
    let c = seq![h.revision, h.checksum];
    let d = h.oem_id@;
    let e = h.oem_table_id@;
    let f = le_bytes_u32(h.oem_revision);
    let g = h.creator_id@;
    let i = h.creator_revision@;
    lemma_byte_sum_concat(a, b);
    lemma_byte_sum_concat(a + b, c);
    lemma_byte_sum_concat(a + b + c, d);
    lemma_byte_sum_concat(a + b + c + d, e);
    lemma_byte_sum_concat(a + b + c + d + e, f);
    lemma_byte_sum_concat(a + b + c + d + e + f, g);
    lemma_byte_sum_concat(a + b + c + d + e + f + g, i);
    reveal_with_fuel(byte_sum, 3);
    assert(c.drop_last() =~= seq![h.revision]);
    assert(c.drop_last().drop_last() =~= Seq::<u8>::empty());
}

/// A table whose header seals the bytes after it is balanced, and its length
/// field is its size.
pub proof fn lemma_sealed_table(h: TableHeader, rest: Seq<u8>)
    requires
        h.seals(rest),
    ensures
        balanced(h.bytes() + rest),
        h.length == (h.bytes() + rest).len(),
        h.length == 36 + rest.len(),
{
    reveal(TableHeader::sealing_checksum);
    let open = TableHeader { checksum: 0, ..h };
    lemma_header_sum(h);
    lemma_header_sum(open);
    lemma_byte_sum_concat(h.bytes(), rest);
    lemma_byte_sum_concat(open.bytes(), rest);
}

/// Sealing sets the length and the checksum, whatever they were before, and
/// leaves the other fields as they are. Sealing a sealed header for the same
/// bytes changes nothing.
pub proof fn lemma_sealing_identity(h: TableHeader, rest: Seq<u8>)
    ensures
        h.sealing(rest) == h.identity().sealing(rest),
        h.sealing(rest).identity() == h.identity(),
        h.sealing(rest).sealing(rest) == h.sealing(rest),
        h.sealing(rest).length == (36 + rest.len()) as u32,
{
    reveal(TableHeader::sealing_checksum);
}

/// The sum of a header's bytes other than the length and checksum fields
/// does not depend on those two fields.
pub proof fn lemma_fixed_sum_identity(h: TableHeader)
    ensures
        h.fixed_sum() == h.identity().fixed_sum(),
{
}

/// The checksum of a sealing header is the balancing byte of a running sum
/// that is congruent to the sum of all other bytes of the table.
pub proof fn lemma_sealing_from_sum(h: TableHeader, rest: Seq<u8>, sum: int)
    requires
        36 + rest.len() <= u32::MAX,
        h.length == 36 + rest.len(),
        sum % 256 == (h.fixed_sum() + byte_sum(le_bytes_u32(h.length)) + byte_sum(rest)) % 256,
        h.checksum == balancing_byte(sum),
    ensures
        h.seals(rest),
{
    reveal(TableHeader::sealing_checksum);
    let open = TableHeader { checksum: 0, ..h };
    lemma_header_sum(open);
    lemma_byte_sum_concat(open.bytes(), rest);
}

/// The running sum of a table after its length field has changed from
/// `old_len` to `new_len` and `data` was added at its end, computed without
/// a second pass over the table: the old encoding of the length is deleted
/// from the sum, then the new encoding and `data` are appended to it.
pub open spec fn updated_sum(sum: u8, old_len: u32, new_len: u32, data: Seq<u8>) -> int {
    ((((sum - byte_sum(le_bytes_u32(old_len))) % 256 + byte_sum(le_bytes_u32(new_len))) % 256)
        + byte_sum(data)) % 256
}

/// The sum of every byte of a table but its checksum field.
pub open spec fn open_sum(h: TableHeader, rest: Seq<u8>) -> int {
    h.fixed_sum() + byte_sum(le_bytes_u32(h.length)) + byte_sum(rest)
}

/// The incremental update of a sealed table gives a sealed table. Where the
/// running sum stood for every byte but the checksum field, and the length
/// field grows by the size of `data`, the updated running sum stands for
/// every byte but the checksum field of the grown table, and its balancing
/// byte seals the grown table.
pub proof fn lemma_incremental_update(
    before: TableHeader,
    after: TableHeader,
    rest: Seq<u8>,
    data: Seq<u8>,
    sum_before: u8,
    sum_after: u8,
)
    requires
        before.seals(rest),
        before.length + data.len() <= u32::MAX,
        sum_before == open_sum(before, rest) % 256,
        after == (TableHeader {
            length: (before.length + data.len()) as u32,
            checksum: balancing_byte(sum_after as int),
            ..before
        }),
        sum_after == updated_sum(sum_before, before.length, after.length, data),
    ensures
        after == before.sealing(rest + data),
        after.seals(rest + data),
        sum_after == open_sum(after, rest + data) % 256,
{
    lemma_sealed_table(before, rest);
    lemma_byte_sum_concat(rest, data);
    lemma_running_sum(
        before.fixed_sum() + byte_sum(rest),
        byte_sum(le_bytes_u32(before.length)),
        byte_sum(le_bytes_u32(after.length)),
        byte_sum(data),
    );
    lemma_sealing_from_sum(after, rest + data, sum_after as int);
    lemma_sealing_identity(after, rest + data);
    lemma_sealing_identity(before, rest + data);
}

} // verus!
