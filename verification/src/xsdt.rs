//! The extended system description table: the addresses of the other tables.

use crate::checksum::Checksum;
use crate::encoding::{balanced, le_bytes_u64, u64_to_le};
use crate::header::{
    lemma_header_sum, lemma_incremental_update, lemma_sealed_table, lemma_sealing_from_sum,
    lemma_sealing_identity, open_sum, TableHeader, TABLE_HEADER_LEN,
};
use crate::sink::{accept_all, lemma_accept_all_concat, Aml, AmlSink, SinkModel};
use crate::wire::wire_u32;
use crate::{CREATOR_ID, CREATOR_REVISION};
use vstd::prelude::*;

verus! {

/// The signature of the table: the ASCII characters `XSDT`.
pub const XSDT_SIGNATURE: [u8; 4] = [0x58, 0x53, 0x44, 0x54];

/// The size of a serialized entry: one 64-bit address.
pub const XSDT_ENTRY_LEN: usize = 8;

/// The entries on the wire: each address little-endian, in order.
pub open spec fn entries_bytes(entries: Seq<u64>) -> Seq<u8>
    decreases entries.len(),
{
    if entries.len() == 0 {
        Seq::empty()
    } else {
        entries_bytes(entries.drop_last()) + le_bytes_u64(entries.last())
    }
}

/// One more entry at the end adds its eight bytes at the end.
pub proof fn lemma_entries_bytes_push(entries: Seq<u64>, entry: u64)
    ensures
        entries_bytes(entries.push(entry)) == entries_bytes(entries) + le_bytes_u64(entry),
{
    assert(entries.push(entry).drop_last() =~= entries);
}

/// A run of entries serializes to eight bytes per entry.
pub proof fn lemma_entries_len(entries: Seq<u64>)
    ensures
        entries_bytes(entries).len() == 8 * entries.len(),
    decreases entries.len(),
{
    if entries.len() > 0 {
        lemma_entries_len(entries.drop_last());
    }
}

/// The table as a mathematical value.
pub struct XsdtView {
    pub header: TableHeader,
    /// The addresses, in the order in which they were added.
    pub entries: Seq<u64>,
}

impl XsdtView {
    /// The table that `XSDT::new` builds.
    pub open spec fn initial(
        oem_id: [u8; 6],
        oem_table_id: [u8; 8],
        oem_revision: u32,
    ) -> XsdtView {
        let blank = XsdtView {
            header: TableHeader {
                signature: XSDT_SIGNATURE,
                length: 0,
                revision: 1,
                checksum: 0,
                oem_id,
                oem_table_id,
                oem_revision,
                creator_id: CREATOR_ID,
                creator_revision: CREATOR_REVISION,
            },
            entries: Seq::empty(),
        };
        XsdtView { header: blank.header.sealing(blank.rest()), ..blank }
    }

    /// The bytes that follow the header: the entries.
    pub open spec fn rest(self) -> Seq<u8> {
        entries_bytes(self.entries)
    }

    /// The serialized table.
    pub open spec fn bytes(self) -> Seq<u8> {
        self.header.bytes() + self.rest()
    }

    /// Whether one more entry may be added: the table stays within the range
    /// of its length field.
    pub open spec fn has_room(self) -> bool {
        self.header.length + 8 <= u32::MAX
    }

    /// The invariant of the table: the length field is the size of the
    /// serialized table, and the checksum field balances it.
    pub open spec fn valid(self) -> bool {
        self.header.seals(self.rest())
    }

    /// The table with `entry` added at its end, and its header sealed anew.
    pub open spec fn appended(self, entry: u64) -> XsdtView {
        let grown = XsdtView { entries: self.entries.push(entry), ..self };
        XsdtView { header: self.header.sealing(grown.rest()), ..grown }
    }

    /// The table with each of `run` added at its end, in order.
    pub open spec fn appended_all(self, run: Seq<u64>) -> XsdtView
        decreases run.len(),
    {
        if run.len() == 0 {
            self
        } else {
            self.appended_all(run.drop_last()).appended(run.last())
        }
    }
}

/// An extended system description table under construction.
pub struct XSDT {
    header: TableHeader,
    checksum: Checksum,
    entries: Vec<u64>,
}

impl View for XSDT {
    type V = XsdtView;

    closed spec fn view(&self) -> XsdtView {
        XsdtView { header: self.header, entries: self.entries@ }
    }
}

impl XSDT {
    /// Whether the accumulator holds the sum of every byte but the checksum
    /// field.
    pub closed spec fn tracks(&self) -> bool {
        self.checksum.state() == open_sum(self@.header, self@.rest()) % 256
    }

    /// The invariant that every operation keeps.
    pub open spec fn wf(&self) -> bool {
        &&& self@.valid()
        &&& self.tracks()
    }

    /// A table without entries.
    pub fn new(oem_id: [u8; 6], oem_table_id: [u8; 8], oem_revision: u32) -> (r: XSDT)
        ensures
            r.wf(),
            r@ == XsdtView::initial(oem_id, oem_table_id, oem_revision),
            balanced(r@.bytes()),
            r@.header.length == 36,
            r@.bytes().len() == 36,
    {
        let mut header = TableHeader {
            signature: XSDT_SIGNATURE,
            length: TABLE_HEADER_LEN as u32,
            revision: 1,
            checksum: 0,
            oem_id,
            oem_table_id,
            oem_revision,
            creator_id: CREATOR_ID,
            creator_revision: CREATOR_REVISION,
        };

        let mut cksum = Checksum::default();
        let bytes = header.as_bytes();
        cksum.append(bytes.as_slice());
        header.checksum = cksum.value();

        let r = XSDT { header, checksum: cksum, entries: Vec::new() };
        proof {
            let open = TableHeader { checksum: 0, ..r.header };
            lemma_header_sum(open);
            lemma_sealing_from_sum(r@.header, r@.rest(), r.checksum.state() as int);
            let blank = TableHeader { length: 0, checksum: 0, ..r@.header };
            lemma_sealing_identity(r@.header, r@.rest());
            lemma_sealing_identity(blank, r@.rest());
            assert(r@ == XsdtView::initial(oem_id, oem_table_id, oem_revision));
            lemma_sealed_table(r@.header, r@.rest());
        }
        r
    }

    /// Adds the address of a table at the end.
    pub fn add_entry(&mut self, entry: u64)
        requires
            old(self).wf(),
            old(self)@.has_room(),
        ensures
            final(self).wf(),
            final(self)@ == old(self)@.appended(entry),
            balanced(final(self)@.bytes()),
            final(self)@.header.length == final(self)@.bytes().len(),
            final(self)@.header.length == old(self)@.header.length + 8,
    {
        let old_len: u32 = self.header.length;
        let new_len: u32 = old_len + XSDT_ENTRY_LEN as u32;
        self.header.length = new_len;

        // Remove the bytes of the old length, add the new length and the
        // new entry.
        let old_bytes: [u8; 4] = wire_u32(old_len);
        let new_bytes: [u8; 4] = wire_u32(new_len);
        let data: [u8; 8] = u64_to_le(entry);
        self.checksum.delete(old_bytes.as_slice());
        self.checksum.append(new_bytes.as_slice());
        self.checksum.append(data.as_slice());
        self.header.checksum = self.checksum.value();
        self.entries.push(entry);
        proof {
            lemma_entries_bytes_push(old(self)@.entries, entry);
            lemma_incremental_update(
                old(self)@.header,
                self@.header,
                old(self)@.rest(),
                data@,
                old(self).checksum.state(),
                self.checksum.state(),
            );
            lemma_appended_valid(old(self)@, entry);
            lemma_sealed_table(old(self)@.header, old(self)@.rest());
        }
    }

    /// The size of the serialized table.
    pub fn len(&self) -> (r: usize)
        requires
            self.wf(),
        ensures
            r == self@.bytes().len(),
            r == 36 + 8 * self@.entries.len(),
    {
        proof {
            lemma_sealed_table(self@.header, self@.rest());
            lemma_entries_len(self@.entries);
        }
        TABLE_HEADER_LEN + self.entries.len() * XSDT_ENTRY_LEN
    }

    /// The value of the length field: the size of the serialized table.
    pub fn length(&self) -> (r: u32)
        ensures
            r == self@.header.length,
    {
        self.header.length
    }
}

impl Aml for XSDT {
    open spec fn aml_bytes(&self) -> Seq<u8> {
        self@.bytes()
    }

    /// Delivers the header, then every entry in the order in which it was
    /// added.
    fn to_aml_bytes<S: AmlSink>(&self, sink: &mut S) {
        let bytes = self.header.as_bytes();
        sink.vec(bytes.as_slice());
        let mut i: usize = 0;
        while i < self.entries.len()
            invariant
                i <= self.entries.len(),
                sink.state() == accept_all::<S>(
                    old(sink).state(),
                    self.header.bytes() + entries_bytes(self.entries@.take(i as int)),
                ),
            decreases self.entries.len() - i,
        {
            let entry: u64 = self.entries[i];
            sink.qword(entry);
            proof {
                assert(self.entries@.take(i + 1) =~= self.entries@.take(i as int).push(entry));
                lemma_entries_bytes_push(self.entries@.take(i as int), entry);
                lemma_accept_all_concat::<S>(
                    old(sink).state(),
                    self.header.bytes() + entries_bytes(self.entries@.take(i as int)),
                    le_bytes_u64(entry),
                );
                assert(self.header.bytes() + entries_bytes(self.entries@.take(i as int))
                    + le_bytes_u64(entry) =~= self.header.bytes() + (entries_bytes(
                    self.entries@.take(i as int),
                ) + le_bytes_u64(entry)));
            }
            i += 1;
        }
        proof {
            assert(self.entries@.take(i as int) =~= self.entries@);
        }
    }
}

/// Adding an entry to a table that has room keeps the table valid: its bytes
/// still sum to zero modulo 256, its length field is still its size, and
/// that size has grown by eight.
pub proof fn lemma_appended_valid(m: XsdtView, entry: u64)
    requires
        m.valid(),
        m.has_room(),
    ensures
        m.appended(entry).valid(),
        balanced(m.appended(entry).bytes()),
        m.appended(entry).header.length == m.appended(entry).bytes().len(),
        m.appended(entry).bytes().len() == m.bytes().len() + 8,
{
    let after = m.appended(entry);
    lemma_entries_bytes_push(m.entries, entry);
    lemma_sealed_table(m.header, m.rest());
    lemma_sealing_identity(m.header, after.rest());
    lemma_sealed_table(after.header, after.rest());
}

/// Adding `run.len()` entries makes the serialized table longer by exactly
/// `run.len() * 8` bytes.
pub proof fn lemma_fixed_size_run(m: XsdtView, run: Seq<u64>)
    ensures
        m.appended_all(run).entries == m.entries + run,
        m.appended_all(run).bytes().len() == m.bytes().len() + run.len() * 8,
    decreases run.len(),
{
    if run.len() == 0 {
        assert(m.entries + run =~= m.entries);
    } else {
        lemma_fixed_size_run(m, run.drop_last());
        assert(m.entries + run =~= (m.entries + run.drop_last()).push(run.last()));
        lemma_entries_len(m.entries + run);
        lemma_entries_len(m.entries + run.drop_last());
        lemma_entries_len(m.entries);
    }
}

/// Whatever run of entries is added to a valid table that has room for them,
/// the serialized table sums to zero modulo 256 and its length field is its
/// size.
pub proof fn lemma_appended_all_valid(m: XsdtView, run: Seq<u64>)
    requires
        m.valid(),
        m.header.length + 8 * run.len() <= u32::MAX,
    ensures
        m.appended_all(run).valid(),
        balanced(m.appended_all(run).bytes()),
        m.appended_all(run).header.length == m.appended_all(run).bytes().len(),
        m.appended_all(run).header.length == m.header.length + 8 * run.len(),
    decreases run.len(),
{
    lemma_sealed_table(m.header, m.rest());
    if run.len() > 0 {
        lemma_appended_all_valid(m, run.drop_last());
        lemma_appended_valid(m.appended_all(run.drop_last()), run.last());
        lemma_sealed_table(
            m.appended_all(run.drop_last()).header,
            m.appended_all(run.drop_last()).rest(),
        );
    }
}

} // verus!
