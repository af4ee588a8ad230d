//! The RISC-V hart capabilities table, with its ISA string nodes and hart
//! info nodes.

use crate::checksum::{lemma_mod_step, u8sum, Checksum};
use crate::encoding::{
    balanced, byte_sum, le_bytes_u16, le_bytes_u32, le_bytes_u64, lemma_byte_sum_concat,
};
use crate::header::{
    lemma_fixed_sum_identity, lemma_header_sum, lemma_sealed_table, lemma_sealing_from_sum,
    lemma_sealing_identity, TableHeader,
};
use crate::sink::{
    aml_concat, emit_all, lemma_accept_all_concat, lemma_accept_all_push, lemma_aml_concat_push,
    lemma_aml_concat_split, Aml, AmlSink, SinkModel,
};
use crate::wire::{wire_u32, wire_u64};
use crate::{CREATOR_ID, CREATOR_REVISION};
use vstd::prelude::*;
use vstd::string::StringSliceAdditionalSpecFns;

verus! {

/// The signature of the table: the ASCII characters `RHCT`.
pub const RHCT_SIGNATURE: [u8; 4] = [0x52, 0x48, 0x43, 0x54];

/// The size of the table without any node: the common header, a reserved
/// field, the timebase frequency, the node count and the offset of the first
/// node. The first node starts at this offset.
pub const RHCT_HEADER_LEN: usize = 56;

/// The type code of an ISA string node.
pub const ISA_STRING_NODE_TYPE: u16 = 0;

/// The type code of a hart info node.
pub const HART_INFO_NODE_TYPE: u16 = 65535;

/// The longest ISA string, in bytes, for which the node's size still fits the
/// node's 16-bit length field.
pub const ISA_STRING_MAX_LEN: usize = 65525;

/// The place of an ISA string node in its table: the offset of the node's
/// first byte from the table's first byte. It is meant for the table that
/// gave it out.
#[derive(Debug)]
pub struct IsaStringHandle(u32);

impl View for IsaStringHandle {
    type V = u32;

    closed spec fn view(&self) -> u32 {
        self.0
    }
}

impl IsaStringHandle {
    /// The offset of the node from the start of the table.
    pub fn offset(&self) -> (r: u32)
        ensures
            r == self@,
    {
        self.0
    }
}

/// The size of a serialized ISA string node whose string has `n` bytes: the
/// type, the length, the revision and the string length (two bytes each), the
/// string, its terminator, and one byte of padding where that makes the size
/// even.
pub open spec fn isa_string_node_len(n: nat) -> nat {
    if (n + 9) % 2 == 0 {
        n + 9
    } else {
        n + 10
    }
}

/// The serialized ISA string node for the string whose bytes are `s`.
pub open spec fn isa_string_node_bytes(s: Seq<u8>) -> Seq<u8> {
    le_bytes_u16(0) + le_bytes_u16(isa_string_node_len(s.len()) as u16) + le_bytes_u16(1)
        + le_bytes_u16((s.len() + 1) as u16) + s + seq![0u8] + if s.len() % 2 == 0 {
        seq![0u8]
    } else {
        Seq::empty()
    }
}

/// A serialized ISA string node has the size that its length field gives.
pub proof fn lemma_isa_string_node_len(s: Seq<u8>)
    ensures
        isa_string_node_bytes(s).len() == isa_string_node_len(s.len()),
        isa_string_node_len(s.len()) % 2 == 0,
{
}

/// A node that holds an ISA string.
pub struct IsaStringNode {
    string: &'static str,
}

impl IsaStringNode {
    // The node's size fits its length field.
    #[verifier::type_invariant]
    spec fn fits(self) -> bool {
        self.string.spec_bytes().len() <= ISA_STRING_MAX_LEN
    }

    /// The bytes of the string.
    pub closed spec fn string_bytes(&self) -> Seq<u8> {
        self.string.spec_bytes()
    }

    /// The node that holds `string`.
    pub closed spec fn of(string: &'static str) -> IsaStringNode {
        IsaStringNode { string }
    }

    /// Whether a node can hold `string`: whether the node's size then fits
    /// its length field.
    pub fn holds(string: &str) -> (r: bool)
        ensures
            r == (string.spec_bytes().len() <= ISA_STRING_MAX_LEN),
    {
        string.as_bytes().len() <= ISA_STRING_MAX_LEN
    }

    const REVISION: u16 = 1;

    /// The node that holds `string`. The string takes at most
    /// `ISA_STRING_MAX_LEN` bytes.
    pub fn new(string: &'static str) -> (r: Self)
        requires
            string.spec_bytes().len() <= ISA_STRING_MAX_LEN,
        ensures
            r == Self::of(string),
            r.string_bytes() == string.spec_bytes(),
    {
        Self { string }
    }

    /// The sum modulo 256 of the serialized node's bytes.
    pub fn u8sum(&self) -> (r: u8)
        ensures
            r == byte_sum(self.aml_bytes()) % 256,
    {
        u8sum(self)
    }

    /// The size of the serialized node.
    pub fn len(&self) -> (r: usize)
        ensures
            r == self.aml_bytes().len(),
            r == isa_string_node_len(self.string_bytes().len()),
            r <= 65534,
    {
        proof {
            use_type_invariant(self);
            lemma_isa_string_node_len(self.string_bytes());
        }
        // type (2), length (2), revision (2), string length (2),
        // string (N), null terminator (1), padding (0 or 1)
        let len: usize = 8 + self.string.len() + 1;
        if len % 2 == 0 {
            len
        } else {
            len + 1
        }
    }
}

/// The node that holds a string holds the bytes of that string.
pub proof fn lemma_isa_string_node_of(string: &'static str)
    ensures
        IsaStringNode::of(string).string_bytes() == string.spec_bytes(),
{
}

impl Aml for IsaStringNode {
    open spec fn aml_bytes(&self) -> Seq<u8> {
        isa_string_node_bytes(self.string_bytes())
    }

    fn to_aml_bytes<S: AmlSink>(&self, sink: &mut S) {
        proof {
            use_type_invariant(self);
        }
        let ghost start = sink.state();
        let ghost s = self.string_bytes();
        // ISA string length (including NULL terminator)
        let strlen: u16 = self.string.len() as u16 + 1;
        let padding_reqd: bool = strlen % 2 == 1;
        sink.word(ISA_STRING_NODE_TYPE);
        let ghost sent = le_bytes_u16(0);
        let len: u16 = self.len() as u16;
        sink.word(len);
        proof {
            lemma_accept_all_concat::<S>(start, sent, le_bytes_u16(len));
            sent = sent + le_bytes_u16(isa_string_node_len(s.len()) as u16);
        }
        sink.word(Self::REVISION);
        proof {
            lemma_accept_all_concat::<S>(start, sent, le_bytes_u16(1));
            sent = sent + le_bytes_u16(1);
        }
        sink.word(strlen);
        proof {
            lemma_accept_all_concat::<S>(start, sent, le_bytes_u16(strlen));
            sent = sent + le_bytes_u16((s.len() + 1) as u16);
        }
        sink.vec(self.string.as_bytes());
        proof {
            lemma_accept_all_concat::<S>(start, sent, s);
            sent = sent + s;
        }
        sink.byte(0);  // NULL terminator
        proof {
            lemma_accept_all_push::<S>(start, sent, 0u8);
            assert(sent.push(0u8) =~= sent + seq![0u8]);
            sent = sent + seq![0u8];
        }
        if padding_reqd {
            sink.byte(0);
            proof {
                lemma_accept_all_push::<S>(start, sent, 0u8);
                assert(sent.push(0u8) =~= sent + seq![0u8]);
                sent = sent + seq![0u8];
            }
        } else {
            proof {
                assert(sent + Seq::<u8>::empty() =~= sent);
            }
        }
    }
}

/// A node that says which ISA string node describes a hart.
///
/// The wire format lets a hart info node refer to several nodes. This one
/// always refers to exactly one.
pub struct HartInfoNode {
    processor_uid: u32,
    handle: u32,
}

impl HartInfoNode {
    /// The ACPI processor UID of the hart.
    pub closed spec fn processor_uid(&self) -> u32 {
        self.processor_uid
    }

    /// The offset of the node that this node refers to.
    pub closed spec fn handle(&self) -> u32 {
        self.handle
    }

    const REVISION: u16 = 1;

    /// The node for the hart that ACPI knows as processor `processor_uid`,
    /// described by the ISA string node behind `handle`.
    pub fn new(processor_uid: u32, handle: &IsaStringHandle) -> (r: Self)
        ensures
            r.processor_uid() == processor_uid,
            r.handle() == handle@,
    {
        Self { processor_uid, handle: handle.0 }
    }

    /// The size of the serialized node: twelve bytes and four for the one
    /// offset.
    pub fn len() -> (r: usize)
        ensures
            r == 16,
    {
        12 + 4
    }

    /// The sum modulo 256 of the serialized node's bytes.
    pub fn u8sum(&self) -> (r: u8)
        ensures
            r == byte_sum(self.aml_bytes()) % 256,
    {
        u8sum(self)
    }
}

impl Aml for HartInfoNode {
    /// Type, length, revision and the count of offsets, which is one, then
    /// the processor UID and the offset; all little-endian.
    open spec fn aml_bytes(&self) -> Seq<u8> {
        le_bytes_u16(65535) + le_bytes_u16(16) + le_bytes_u16(1) + le_bytes_u16(1) + le_bytes_u32(
            self.processor_uid(),
        ) + le_bytes_u32(self.handle())
    }

    fn to_aml_bytes<S: AmlSink>(&self, sink: &mut S) {
        let ghost start = sink.state();
        let ty: u16 = HART_INFO_NODE_TYPE;
        sink.word(ty);
        let ghost sent = le_bytes_u16(65535);
        sink.word(Self::len() as u16);
        proof {
            lemma_accept_all_concat::<S>(start, sent, le_bytes_u16(16));
            sent = sent + le_bytes_u16(16);
        }
        sink.word(Self::REVISION);
        proof {
            lemma_accept_all_concat::<S>(start, sent, le_bytes_u16(1));
            sent = sent + le_bytes_u16(1);
        }
        sink.word(1);  // one offset
        proof {
            lemma_accept_all_concat::<S>(start, sent, le_bytes_u16(1));
            sent = sent + le_bytes_u16(1);
        }
        sink.dword(self.processor_uid);
        proof {
            lemma_accept_all_concat::<S>(start, sent, le_bytes_u32(self.processor_uid));
            sent = sent + le_bytes_u32(self.processor_uid);
        }
        sink.dword(self.handle);
        proof {
            lemma_accept_all_concat::<S>(start, sent, le_bytes_u32(self.handle));
            sent = sent + le_bytes_u32(self.handle);
        }
    }
}

/// A serialized hart info node has 16 bytes, the last four of which are the
/// little-endian encoding of the offset that it refers to.
pub proof fn lemma_hart_info_encodes_handle(node: HartInfoNode)
    ensures
        node.aml_bytes().len() == 16,
        node.aml_bytes().subrange(8, 12) == le_bytes_u32(node.processor_uid()),
        node.aml_bytes().subrange(12, 16) == le_bytes_u32(node.handle()),
{
    assert(node.aml_bytes().subrange(8, 12) =~= le_bytes_u32(node.processor_uid()));
    assert(node.aml_bytes().subrange(12, 16) =~= le_bytes_u32(node.handle()));
}

/// One node of the table.
pub enum RhctNode {
    IsaString(IsaStringNode),
    HartInfo(HartInfoNode),
}

impl Aml for RhctNode {
    open spec fn aml_bytes(&self) -> Seq<u8> {
        match self {
            RhctNode::IsaString(n) => n.aml_bytes(),
            RhctNode::HartInfo(n) => n.aml_bytes(),
        }
    }

    fn to_aml_bytes<S: AmlSink>(&self, sink: &mut S) {
        match self {
            RhctNode::IsaString(n) => n.to_aml_bytes(sink),
            RhctNode::HartInfo(n) => n.to_aml_bytes(sink),
        }
    }
}

/// The table as a mathematical value.
pub struct RhctView {
    pub header: TableHeader,
    pub timebase_frequency: u64,
    /// The value of the field that counts the nodes.
    pub node_count: u32,
    /// The nodes, in the order in which they were added.
    pub nodes: Seq<RhctNode>,
}

impl RhctView {
    /// The table that `RHCT::new` builds.
    pub open spec fn initial(
        oem_id: [u8; 6],
        oem_table_id: [u8; 8],
        oem_revision: u32,
        timebase_frequency: u64,
    ) -> RhctView {
        let blank = RhctView {
            header: TableHeader {
                signature: RHCT_SIGNATURE,
                length: 0,
                revision: 1,
                checksum: 0,
                oem_id,
                oem_table_id,
                oem_revision,
                creator_id: CREATOR_ID,
                creator_revision: CREATOR_REVISION,
            },
            timebase_frequency,
            node_count: 0,
            nodes: Seq::empty(),
        };
        RhctView { header: blank.header.sealing(blank.rest()), ..blank }
    }

    /// The fields between the common header and the nodes: a reserved zero,
    /// the timebase frequency, the number of nodes, and the offset of the
    /// first node.
    pub open spec fn fields(self) -> Seq<u8> {
        le_bytes_u32(0) + le_bytes_u64(self.timebase_frequency) + le_bytes_u32(self.node_count)
            + le_bytes_u32(56)
    }

    /// The bytes that follow the common header.
    pub open spec fn rest(self) -> Seq<u8> {
        self.fields() + aml_concat(self.nodes)
    }

    /// The serialized table.
    pub open spec fn bytes(self) -> Seq<u8> {
        self.header.bytes() + self.rest()
    }

    /// Whether `node` may be added: the table stays within the range of its
    /// length field.
    pub open spec fn admits(self, node: RhctNode) -> bool {
        self.header.length + node.aml_bytes().len() <= u32::MAX
    }

    /// The invariant of the table: the length field is the size of the
    /// serialized table, the checksum field balances it, and the node count
    /// is the number of nodes.
    pub open spec fn valid(self) -> bool {
        &&& self.header.seals(self.rest())
        &&& self.node_count == self.nodes.len()
    }

    /// The table with `node` added at its end and counted, and its header
    /// sealed anew.
    pub open spec fn appended(self, node: RhctNode) -> RhctView {
        let grown = RhctView {
            node_count: (self.node_count + 1) as u32,
            nodes: self.nodes.push(node),
            ..self
        };
        RhctView { header: self.header.sealing(grown.rest()), ..grown }
    }

    /// The table with each of `run` added at its end, in order.
    pub open spec fn appended_all(self, run: Seq<RhctNode>) -> RhctView
        decreases run.len(),
    {
        if run.len() == 0 {
            self
        } else {
            self.appended_all(run.drop_last()).appended(run.last())
        }
    }

    /// Whether each of `run` may be added in turn.
    pub open spec fn admits_all(self, run: Seq<RhctNode>) -> bool
        decreases run.len(),
    {
        run.len() > 0 ==> {
            &&& self.admits_all(run.drop_last())
            &&& self.appended_all(run.drop_last()).admits(run.last())
        }
    }
}

// The fixed part of the table, as it is kept while the table is built.
struct Header {
    table_header: TableHeader,
    timebase_frequency: u64,
    rhct_nodes: u32,
}

impl Header {
    spec fn bytes(self) -> Seq<u8> {
        self.table_header.bytes() + le_bytes_u32(0) + le_bytes_u64(self.timebase_frequency)
            + le_bytes_u32(self.rhct_nodes) + le_bytes_u32(56)
    }

    fn len() -> (r: usize)
        ensures
            r == 56,
    {
        RHCT_HEADER_LEN
    }

    fn as_bytes(&self) -> (r: Vec<u8>)
        ensures
            r@ == self.bytes(),
            r@.len() == 56,
    {
        let mut v: Vec<u8> = self.table_header.as_bytes();
        let reserved: [u8; 4] = wire_u32(0);
        v.extend_from_slice(reserved.as_slice());
        let timebase: [u8; 8] = wire_u64(self.timebase_frequency);
        v.extend_from_slice(timebase.as_slice());
        let nodes: [u8; 4] = wire_u32(self.rhct_nodes);
        v.extend_from_slice(nodes.as_slice());
        let offset: [u8; 4] = wire_u32(Header::len() as u32);
        v.extend_from_slice(offset.as_slice());
        assert(v@ =~= self.bytes());
        v
    }
}

/// A RISC-V hart capabilities table under construction.
pub struct RHCT {
    header: Header,
    handle_offset: u32,
    checksum: Checksum,
    structures: Vec<RhctNode>,
}

impl View for RHCT {
    type V = RhctView;

    closed spec fn view(&self) -> RhctView {
        RhctView {
            header: self.header.table_header,
            timebase_frequency: self.header.timebase_frequency,
            node_count: self.header.rhct_nodes,
            nodes: self.structures@,
        }
    }
}

impl RHCT {
    /// Whether the bookkeeping agrees with the table: the accumulator holds
    /// the sum of every byte but the checksum field, and the next handle is
    /// the size of the table.
    pub closed spec fn tracks(&self) -> bool {
        &&& self.checksum.state() == open_sum(self@) % 256
        &&& self.handle_offset == self.header.table_header.length
    }

    /// The invariant that every operation keeps.
    pub open spec fn wf(&self) -> bool {
        &&& self@.valid()
        &&& self.tracks()
    }

    /// A table without nodes.
    pub fn new(
        oem_id: [u8; 6],
        oem_table_id: [u8; 8],
        oem_revision: u32,
        timebase_frequency: u64,
    ) -> (r: RHCT)
        ensures
            r.wf(),
            r@ == RhctView::initial(oem_id, oem_table_id, oem_revision, timebase_frequency),
            balanced(r@.bytes()),
            r@.header.length == 56,
            r@.bytes().len() == 56,
    {
        let mut header = Header {
            table_header: TableHeader {
                signature: RHCT_SIGNATURE,
                length: Header::len() as u32,
                revision: 1,
                checksum: 0,
                oem_id,
                oem_table_id,
                oem_revision,
                creator_id: CREATOR_ID,
                creator_revision: CREATOR_REVISION,
            },
            timebase_frequency,
            rhct_nodes: 0,
        };

        let mut cksum = Checksum::default();
        let bytes = header.as_bytes();
        cksum.append(bytes.as_slice());
        header.table_header.checksum = cksum.value();

        let r = RHCT {
            header,
            handle_offset: Header::len() as u32,
            checksum: cksum,
            structures: Vec::new(),
        };
        proof {
            let open = TableHeader { checksum: 0, ..r.header.table_header };
            lemma_header_sum(open);
            assert(r@.rest() =~= r@.fields());
            assert(bytes@ =~= open.bytes() + r@.fields());
            lemma_byte_sum_concat(open.bytes(), r@.fields());
            lemma_sealing_from_sum(r@.header, r@.rest(), r.checksum.state() as int);
            let blank = TableHeader { length: 0, checksum: 0, ..r@.header };
            lemma_sealing_identity(r@.header, r@.rest());
            lemma_sealing_identity(blank, r@.rest());
            assert(r@ == RhctView::initial(oem_id, oem_table_id, oem_revision, timebase_frequency));
            lemma_sealed_table(r@.header, r@.rest());
        }
        r
    }

    // Grows the length field by `len` and the node count by one, and brings
    // the accumulator and the checksum field up to date: the old encodings of
    // both fields leave the running sum, the new ones and `sum` enter it.
    fn update_header(&mut self, sum: u8, len: u32)
        requires
            old(self).header.table_header.length + len <= u32::MAX,
            old(self).header.rhct_nodes < u32::MAX,
        ensures
            final(self).header.table_header == (TableHeader {
                length: (old(self).header.table_header.length + len) as u32,
                checksum: crate::encoding::balancing_byte(final(self).checksum.state() as int),
                ..old(self).header.table_header
            }),
            final(self).header.timebase_frequency == old(self).header.timebase_frequency,
            final(self).header.rhct_nodes == old(self).header.rhct_nodes + 1,
            final(self).structures == old(self).structures,
            final(self).handle_offset == old(self).handle_offset,
            final(self).checksum.state() == updated_sum(
                old(self).checksum.state(),
                old(self).header.rhct_nodes,
                final(self).header.rhct_nodes,
                old(self).header.table_header.length,
                final(self).header.table_header.length,
                sum,
            ),
    {
        let old_len: u32 = self.header.table_header.length;
        let new_len: u32 = len + old_len;
        self.header.table_header.length = new_len;

        // Update the current node count
        let old_node_count: u32 = self.header.rhct_nodes;
        let new_node_count: u32 = old_node_count + 1;
        self.header.rhct_nodes = new_node_count;
        let old_count_bytes: [u8; 4] = wire_u32(old_node_count);
        let new_count_bytes: [u8; 4] = wire_u32(new_node_count);
        self.checksum.delete(old_count_bytes.as_slice());
        self.checksum.append(new_count_bytes.as_slice());

        // Update the length and data
        let old_len_bytes: [u8; 4] = wire_u32(old_len);
        let new_len_bytes: [u8; 4] = wire_u32(new_len);
        self.checksum.delete(old_len_bytes.as_slice());
        self.checksum.append(new_len_bytes.as_slice());
        self.checksum.add(sum);
        self.header.table_header.checksum = self.checksum.value();
    }

    // Adds a node whose serialized form has `len` bytes that sum to `sum`
    // modulo 256.
    fn add_node(&mut self, node: RhctNode, sum: u8, len: u32)
        requires
            old(self).wf(),
            old(self)@.admits(node),
            len == node.aml_bytes().len(),
            sum == byte_sum(node.aml_bytes()) % 256,
        ensures
            final(self).wf(),
            final(self)@ == old(self)@.appended(node),
            balanced(final(self)@.bytes()),
            final(self)@.header.length == final(self)@.bytes().len(),
            final(self)@.header.length == old(self)@.header.length + len,
    {
        proof {
            lemma_sealed_table(old(self)@.header, old(self)@.rest());
            lemma_concat_at_least(old(self)@.nodes);
        }
        self.handle_offset += len;
        self.update_header(sum, len);
        self.structures.push(node);
        proof {
            lemma_incremental_update(
                old(self)@,
                self@,
                node,
                old(self).checksum.state(),
                self.checksum.state(),
            );
            lemma_appended_valid(old(self)@, node);
            lemma_sealed_table(old(self)@.header, old(self)@.rest());
        }
    }

    /// Adds a node that holds `string` at the end, and returns the handle by
    /// which hart info nodes refer to it: the offset at which the node starts.
    pub fn add_isa_string(&mut self, string: &'static str) -> (handle: IsaStringHandle)
        requires
            old(self).wf(),
            string.spec_bytes().len() <= ISA_STRING_MAX_LEN,
            old(self)@.header.length + isa_string_node_len(string.spec_bytes().len()) <= u32::MAX,
        ensures
            final(self).wf(),
            final(self)@ == old(self)@.appended(RhctNode::IsaString(IsaStringNode::of(string))),
            handle@ == old(self)@.header.length,
            handle@ == old(self)@.bytes().len(),
            balanced(final(self)@.bytes()),
            final(self)@.header.length == final(self)@.bytes().len(),
            final(self)@.header.length == old(self)@.header.length + isa_string_node_len(
                string.spec_bytes().len(),
            ),
    {
        let node = IsaStringNode { string };
        let old_offset: u32 = self.handle_offset;
        proof {
            lemma_isa_string_node_len(node.string_bytes());
            lemma_sealed_table(old(self)@.header, old(self)@.rest());
        }
        let sum: u8 = node.u8sum();
        let len: u32 = node.len() as u32;
        self.add_node(RhctNode::IsaString(node), sum, len);
        IsaStringHandle(old_offset)
    }

    /// Adds a hart info node at the end.
    pub fn add_hart_info(&mut self, hi: HartInfoNode)
        requires
            old(self).wf(),
            old(self)@.header.length + 16 <= u32::MAX,
        ensures
            final(self).wf(),
            final(self)@ == old(self)@.appended(RhctNode::HartInfo(hi)),
            balanced(final(self)@.bytes()),
            final(self)@.header.length == final(self)@.bytes().len(),
            final(self)@.header.length == old(self)@.header.length + 16,
    {
        proof {
            lemma_hart_info_encodes_handle(hi);
        }
        let sum: u8 = hi.u8sum();
        let len: u32 = HartInfoNode::len() as u32;
        self.add_node(RhctNode::HartInfo(hi), sum, len);
    }

    /// The value of the length field: the size of the serialized table.
    pub fn length(&self) -> (r: u32)
        ensures
            r == self@.header.length,
    {
        self.header.table_header.length
    }
}

impl Aml for RHCT {
    open spec fn aml_bytes(&self) -> Seq<u8> {
        self@.bytes()
    }

    /// Delivers the header, then every node in the order in which it was
    /// added.
    fn to_aml_bytes<S: AmlSink>(&self, sink: &mut S) {
        let bytes = self.header.as_bytes();
        sink.vec(bytes.as_slice());
        emit_all(&self.structures, sink);
        proof {
            lemma_accept_all_concat::<S>(
                old(sink).state(),
                bytes@,
                aml_concat(self.structures@),
            );
            assert(bytes@ + aml_concat(self.structures@) =~= self@.bytes());
        }
    }
}

// The sum of every byte of the table but the checksum field.
spec fn open_sum(m: RhctView) -> int {
    m.header.fixed_sum() + byte_sum(le_bytes_u32(m.header.length)) + byte_sum(m.rest())
}

/// Every node takes at least ten bytes, so a run of nodes takes at least ten
/// bytes per node.
pub proof fn lemma_concat_at_least(nodes: Seq<RhctNode>)
    ensures
        aml_concat(nodes).len() >= 10 * nodes.len(),
    decreases nodes.len(),
{
    if nodes.len() > 0 {
        lemma_concat_at_least(nodes.drop_last());
    }
}

// The sum of the bytes after the common header is the sum of the fields'
// bytes and of the nodes' bytes.
proof fn lemma_rest_sum(m: RhctView)
    ensures
        byte_sum(m.rest()) == byte_sum(le_bytes_u32(0)) + byte_sum(
            le_bytes_u64(m.timebase_frequency),
        ) + byte_sum(le_bytes_u32(m.node_count)) + byte_sum(le_bytes_u32(56)) + byte_sum(
            aml_concat(m.nodes),
        ),
{
    let a = le_bytes_u32(0);
    let b = le_bytes_u64(m.timebase_frequency);
    let c = le_bytes_u32(m.node_count);
    let d = le_bytes_u32(56);
    lemma_byte_sum_concat(a, b);
    lemma_byte_sum_concat(a + b, c);
    lemma_byte_sum_concat(a + b + c, d);
    lemma_byte_sum_concat(a + b + c + d, aml_concat(m.nodes));
}

// The running sum after the node count has changed from `c0` to `c1` and the
// length field from `l0` to `l1`, and a node whose bytes sum to `d` was
// added: each old encoding deleted and each new one appended, then `d` added.
spec fn updated_sum(sum: u8, c0: u32, c1: u32, l0: u32, l1: u32, d: u8) -> int {
    let counted = (((sum - byte_sum(le_bytes_u32(c0))) % 256) + byte_sum(le_bytes_u32(c1))) % 256;
    ((((counted - byte_sum(le_bytes_u32(l0))) % 256) + byte_sum(le_bytes_u32(l1))) % 256 + d)
        % 256
}

// A running sum that stands for `fixed + c0 + l0`, in which first the count
// `c0` gives way to `c1` and then the length `l0` gives way to `l1`, and to
// which the sum modulo 256 of the new bytes is added, stands for
// `fixed + c1 + l1 + d`.
proof fn lemma_running_sum_counted(fixed: int, c0: int, c1: int, l0: int, l1: int, d: int)
    ensures
        (((((((fixed + c0 + l0) % 256 - c0) % 256) + c1) % 256 - l0) % 256 + l1) % 256 + d % 256)
            % 256 == (fixed + c1 + l1 + d) % 256,
{
    let x0 = fixed + c0 + l0;
    let x1 = (x0 % 256 - c0) % 256;
    let x2 = (x1 + c1) % 256;
    let x3 = (x2 - l0) % 256;
    let x4 = (x3 + l1) % 256;
    assert(x1 == (fixed + l0) % 256) by {
        lemma_mod_step(x0, -c0);
    }
    assert(x2 == (fixed + l0 + c1) % 256) by {
        lemma_mod_step(fixed + l0, c1);
    }
    assert(x3 == (fixed + c1) % 256) by {
        lemma_mod_step(fixed + l0 + c1, -l0);
    }
    assert(x4 == (fixed + c1 + l1) % 256) by {
        lemma_mod_step(fixed + c1, l1);
    }
    assert((x4 + d % 256) % 256 == (fixed + c1 + l1 + d) % 256) by {
        lemma_mod_step(fixed + c1 + l1, d % 256);
        lemma_mod_step(d, fixed + c1 + l1);
    }
}

// The incremental update gives the table that the model describes: with the
// old count and the old length taken out of the running sum, and the new
// count, the new length and the new node folded in, the running sum is that
// of the grown table, and its balancing byte seals it.
proof fn lemma_incremental_update(
    before: RhctView,
    after: RhctView,
    node: RhctNode,
    sum_before: u8,
    sum_after: u8,
)
    requires
        before.valid(),
        before.admits(node),
        before.node_count < u32::MAX,
        sum_before == open_sum(before) % 256,
        after.header == (TableHeader {
            length: (before.header.length + node.aml_bytes().len()) as u32,
            checksum: crate::encoding::balancing_byte(sum_after as int),
            ..before.header
        }),
        after.timebase_frequency == before.timebase_frequency,
        after.node_count == before.node_count + 1,
        after.nodes == before.nodes.push(node),
        sum_after == updated_sum(
            sum_before,
            before.node_count,
            after.node_count,
            before.header.length,
            after.header.length,
            (byte_sum(node.aml_bytes()) % 256) as u8,
        ),
    ensures
        after == before.appended(node),
        sum_after == open_sum(after) % 256,
{
    assert(after.rest() =~= after.fields() + (aml_concat(before.nodes) + node.aml_bytes())) by {
        lemma_aml_concat_push(before.nodes, node);
    }
    assert(after.header.length == 36 + after.rest().len()) by {
        lemma_sealed_table(before.header, before.rest());
    }
    assert(after.header.fixed_sum() == before.header.fixed_sum()) by {
        lemma_fixed_sum_identity(after.header);
        lemma_fixed_sum_identity(before.header);
    }
    assert(sum_after == open_sum(after) % 256) by {
        lemma_rest_sum(before);
        lemma_rest_sum(after);
        lemma_aml_concat_push(before.nodes, node);
        lemma_byte_sum_concat(aml_concat(before.nodes), node.aml_bytes());
        lemma_running_sum_counted(
            before.header.fixed_sum() + byte_sum(le_bytes_u32(0)) + byte_sum(
                le_bytes_u64(before.timebase_frequency),
            ) + byte_sum(le_bytes_u32(56)) + byte_sum(aml_concat(before.nodes)),
            byte_sum(le_bytes_u32(before.node_count)),
            byte_sum(le_bytes_u32(after.node_count)),
            byte_sum(le_bytes_u32(before.header.length)),
            byte_sum(le_bytes_u32(after.header.length)),
            byte_sum(node.aml_bytes()),
        );
    }
    assert(after.header == before.header.sealing(after.rest())) by {
        lemma_sealing_from_sum(after.header, after.rest(), sum_after as int);
        lemma_sealing_identity(after.header, after.rest());
        lemma_sealing_identity(before.header, after.rest());
    }
}

/// Adding a node that the table admits keeps the table valid: its bytes still
/// sum to zero modulo 256, and its length field is still its size.
pub proof fn lemma_appended_valid(m: RhctView, node: RhctNode)
    requires
        m.valid(),
        m.admits(node),
    ensures
        m.appended(node).valid(),
        balanced(m.appended(node).bytes()),
        m.appended(node).header.length == m.appended(node).bytes().len(),
        m.appended(node).bytes().len() == m.bytes().len() + node.aml_bytes().len(),
{
    let after = m.appended(node);
    lemma_concat_at_least(m.nodes);
    lemma_concat_at_least(after.nodes);
    lemma_aml_concat_push(m.nodes, node);
    assert(after.rest() =~= after.fields() + (aml_concat(m.nodes) + node.aml_bytes()));
    lemma_sealed_table(m.header, m.rest());
    lemma_sealing_identity(m.header, after.rest());
    lemma_sealed_table(after.header, after.rest());
}

/// Adding a run of nodes adds them, in order, after those already there, and
/// changes nothing else but the node count and the header's length and
/// checksum.
pub proof fn lemma_appended_all_nodes(m: RhctView, run: Seq<RhctNode>)
    ensures
        m.appended_all(run).nodes == m.nodes + run,
        m.appended_all(run).timebase_frequency == m.timebase_frequency,
        m.appended_all(run).bytes().len() == m.bytes().len() + aml_concat(run).len(),
    decreases run.len(),
{
    if run.len() == 0 {
        assert(m.nodes + run =~= m.nodes);
    } else {
        lemma_appended_all_nodes(m, run.drop_last());
        assert(m.nodes + run =~= (m.nodes + run.drop_last()).push(run.last()));
        lemma_aml_concat_split(m.nodes, run);
        lemma_aml_concat_split(m.nodes, run.drop_last());
    }
}

/// Whatever run of admitted nodes is added to a valid table, the serialized
/// table sums to zero modulo 256 and its length field is its size.
pub proof fn lemma_appended_all_valid(m: RhctView, run: Seq<RhctNode>)
    requires
        m.valid(),
        m.admits_all(run),
    ensures
        m.appended_all(run).valid(),
        balanced(m.appended_all(run).bytes()),
        m.appended_all(run).header.length == m.appended_all(run).bytes().len(),
    decreases run.len(),
{
    if run.len() == 0 {
        lemma_sealed_table(m.header, m.rest());
    } else {
        lemma_appended_all_valid(m, run.drop_last());
        lemma_appended_valid(m.appended_all(run.drop_last()), run.last());
    }
}

/// A handle keeps its meaning. Let an ISA string node be added to a valid
/// table, and `hart` be a hart info node that holds the handle which that
/// addition gave out, the size of the table before it. Then the last four
/// bytes of the serialized `hart` are that offset, little-endian; and
/// whatever nodes are added later, the serialized table holds the serialized
/// ISA string node at that offset.
pub proof fn lemma_cross_reference(
    m: RhctView,
    isa: IsaStringNode,
    hart: HartInfoNode,
    later: Seq<RhctNode>,
)
    requires
        m.valid(),
        hart.handle() == m.header.length,
    ensures
        hart.aml_bytes().subrange(12, 16) == le_bytes_u32(m.bytes().len() as u32),
        m.appended(RhctNode::IsaString(isa)).appended_all(later).bytes().subrange(
            hart.handle() as int,
            hart.handle() + isa.aml_bytes().len(),
        ) == isa.aml_bytes(),
{
    let node = RhctNode::IsaString(isa);
    let after = m.appended(node).appended_all(later);
    let fixed = after.header.bytes() + after.fields();
    lemma_hart_info_encodes_handle(hart);
    lemma_layout(m);
    lemma_layout(after);
    lemma_nodes_after(m, node, later);
    assert(after.bytes() == fixed + aml_concat(m.nodes) + isa.aml_bytes() + aml_concat(later)) by {
        assert(fixed + (aml_concat(m.nodes) + isa.aml_bytes() + aml_concat(later)) =~= fixed
            + aml_concat(m.nodes) + isa.aml_bytes() + aml_concat(later));
    }
    lemma_middle(fixed + aml_concat(m.nodes), isa.aml_bytes(), aml_concat(later));
}

// A serialized table is 56 bytes of header and fields, then the nodes.
proof fn lemma_layout(m: RhctView)
    ensures
        m.bytes() == m.header.bytes() + m.fields() + aml_concat(m.nodes),
        (m.header.bytes() + m.fields()).len() == 56,
        m.valid() ==> m.header.length == 56 + aml_concat(m.nodes).len(),
{
    assert(m.bytes() =~= m.header.bytes() + m.fields() + aml_concat(m.nodes));
    if m.valid() {
        lemma_sealed_table(m.header, m.rest());
    }
}

// The nodes of a table to which first `node` and then `later` were added,
// serialized, are the nodes it had, `node`, and `later`, serialized.
proof fn lemma_nodes_after(m: RhctView, node: RhctNode, later: Seq<RhctNode>)
    ensures
        aml_concat(m.appended(node).appended_all(later).nodes) == aml_concat(m.nodes)
            + node.aml_bytes() + aml_concat(later),
{
    lemma_appended_all_nodes(m.appended(node), later);
    lemma_aml_concat_push(m.nodes, node);
    lemma_aml_concat_split(m.nodes.push(node), later);
}

// What stands between two sequences can be cut out again.
proof fn lemma_middle(a: Seq<u8>, b: Seq<u8>, c: Seq<u8>)
    ensures
        (a + b + c).subrange(a.len() as int, (a.len() + b.len()) as int) == b,
{
    assert((a + b + c).subrange(a.len() as int, (a.len() + b.len()) as int) =~= b);
}

} // verus!
