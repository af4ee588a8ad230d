//! The RISC-V quality-of-service controller table.

use crate::checksum::{lemma_checksum_accept_all, Checksum};
use crate::encoding::{
    balanced, byte_sum, le_bytes_u16, le_bytes_u32, lemma_byte_sum_concat, lemma_byte_sum_zeros,
};
use crate::gas::GAS;
use crate::header::{
    lemma_header_sum, lemma_sealed_table, lemma_sealing_from_sum, lemma_sealing_identity,
    TableHeader,
};
use crate::sink::{
    aml_concat, emit_all, lemma_accept_all_concat, lemma_aml_concat_push, Aml, AmlSink, SinkModel,
};
use crate::wire::{wire_u16, wire_u32};
use crate::{CREATOR_ID, CREATOR_REVISION};
use vstd::prelude::*;

verus! {

/// The signature of the table: the ASCII characters `RQSC`.
pub const RQSC_SIGNATURE: [u8; 4] = [0x52, 0x51, 0x53, 0x43];

/// The size of the table without any controller: the common header and the
/// number of controllers.
pub const RQSC_HEADER_LEN: usize = 40;

/// The size of a serialized controller structure.
pub const QOS_CONTROLLER_LEN: usize = 32;

/// The register interface that a controller offers.
#[derive(Clone, Copy, Debug)]
pub enum ControllerType {
    Capacity,
    Bandwidth,
}

impl ControllerType {
    /// The code of the controller type on the wire.
    pub open spec fn code(self) -> u8 {
        match self {
            ControllerType::Capacity => 0,
            ControllerType::Bandwidth => 1,
        }
    }

    /// The code of the controller type on the wire.
    pub fn to_code(self) -> (r: u8)
        ensures
            r == self.code(),
    {
        match self {
            ControllerType::Capacity => 0,
            ControllerType::Bandwidth => 1,
        }
    }
}

/// The kind of resource that a controller controls.
#[derive(Clone, Copy, Debug)]
pub enum ResourceType {
    Cache,
    Memory,
}

impl ResourceType {
    /// The code of the resource type on the wire.
    pub open spec fn code(self) -> u8 {
        match self {
            ResourceType::Cache => 0,
            ResourceType::Memory => 1,
        }
    }

    /// The code of the resource type on the wire.
    pub fn to_code(self) -> (r: u8)
        ensures
            r == self.code(),
    {
        match self {
            ResourceType::Cache => 0,
            ResourceType::Memory => 1,
        }
    }
}

/// One quality-of-service controller.
#[derive(Clone, Copy, Debug)]
pub struct QoSController {
    // The register interface that this controller supports.
    controller_type: u8,
    // Where the register interface starts.
    register: GAS,
    // The kind of resource that this controller controls.
    resource_type: u8,
    // For a cache, the id of the cache in the processor properties table. For
    // memory, the proximity domain in the resource affinity table, or zero
    // where memory is uniform.
    resource_id: u32,
    // The number of resource control ids, or zero where the controller cannot
    // allocate.
    rcid_count: u32,
    // The number of monitoring control ids, or zero where the controller
    // cannot monitor.
    mcid_count: u32,
}

impl QoSController {
    /// The controller of the given type, whose registers start at
    /// `register_interface_address`, for the given resource.
    pub fn new(
        controller_type: ControllerType,
        register_interface_address: GAS,
        resource_type: ResourceType,
        resource_id: u32,
        rcid_count: u32,
        mcid_count: u32,
    ) -> (r: QoSController)
        ensures
            r.aml_bytes() == seq![controller_type.code(), 0u8] + le_bytes_u16(32)
                + register_interface_address.aml_bytes() + seq![
                0u8,
                0u8,
                0u8,
                resource_type.code(),
            ] + le_bytes_u32(resource_id) + le_bytes_u32(rcid_count) + le_bytes_u32(mcid_count),
    {
        QoSController {
            controller_type: controller_type.to_code(),
            register: register_interface_address,
            resource_type: resource_type.to_code(),
            resource_id,
            rcid_count,
            mcid_count,
        }
    }

    /// The size of the serialized structure.
    pub fn len() -> (r: usize)
        ensures
            r == 32,
    {
        QOS_CONTROLLER_LEN
    }

    /// The structure on the wire.
    pub fn as_bytes(&self) -> (r: Vec<u8>)
        ensures
            r@ == self.aml_bytes(),
            r@.len() == 32,
    {
        let mut v: Vec<u8> = Vec::new();
        v.push(self.controller_type);
        v.push(0);
        let length: [u8; 2] = wire_u16(32);
        v.extend_from_slice(length.as_slice());
        let register = self.register.as_bytes();
        v.extend_from_slice(register.as_slice());
        let reserved: [u8; 3] = [0, 0, 0];
        v.extend_from_slice(reserved.as_slice());
        v.push(self.resource_type);
        let resource_id: [u8; 4] = wire_u32(self.resource_id);
        v.extend_from_slice(resource_id.as_slice());
        let rcid_count: [u8; 4] = wire_u32(self.rcid_count);
        v.extend_from_slice(rcid_count.as_slice());
        let mcid_count: [u8; 4] = wire_u32(self.mcid_count);
        v.extend_from_slice(mcid_count.as_slice());
        assert(v@ =~= self.aml_bytes());
        v
    }
}

impl Aml for QoSController {
    /// The controller type, a reserved zero byte, the length, the register's
    /// address structure, three reserved zero bytes, the resource type, then
    /// the resource id and the two counts; integers little-endian.
    closed spec fn aml_bytes(&self) -> Seq<u8> {
        seq![self.controller_type, 0u8] + le_bytes_u16(32) + self.register.aml_bytes() + seq![
            0u8,
            0u8,
            0u8,
            self.resource_type,
        ] + le_bytes_u32(self.resource_id) + le_bytes_u32(self.rcid_count) + le_bytes_u32(
            self.mcid_count,
        )
    }

    fn to_aml_bytes<S: AmlSink>(&self, sink: &mut S) {
        let bytes = self.as_bytes();
        sink.vec(bytes.as_slice());
    }
}

/// Every controller serializes to 32 bytes.
pub proof fn lemma_controller_len(q: QoSController)
    ensures
        q.aml_bytes().len() == 32,
{
}

/// A run of controllers serializes to 32 bytes per controller.
pub proof fn lemma_controllers_len(run: Seq<QoSController>)
    ensures
        aml_concat(run).len() == 32 * run.len(),
    decreases run.len(),
{
    if run.len() > 0 {
        lemma_controllers_len(run.drop_last());
        lemma_controller_len(run.last());
    }
}

/// The table as a mathematical value.
pub struct RqscView {
    pub header: TableHeader,
    /// The controllers, in the order in which they were added.
    pub controllers: Seq<QoSController>,
}

impl RqscView {
    /// The table that `RQSC::new` builds.
    pub open spec fn initial(
        oem_id: [u8; 6],
        oem_table_id: [u8; 8],
        oem_revision: u32,
    ) -> RqscView {
        let blank = RqscView {
            header: TableHeader {
                signature: RQSC_SIGNATURE,
                length: 0,
                revision: 1,
                checksum: 0,
                oem_id,
                oem_table_id,
                oem_revision,
                creator_id: CREATOR_ID,
                creator_revision: CREATOR_REVISION,
            },
            controllers: Seq::empty(),
        };
        RqscView { header: blank.header.sealing(blank.rest()), ..blank }
    }

    /// The bytes that follow the common header: the number of controllers,
    /// then the controllers in order.
    pub open spec fn rest(self) -> Seq<u8> {
        le_bytes_u32(self.controllers.len() as u32) + aml_concat(self.controllers)
    }

    /// The serialized table.
    pub open spec fn bytes(self) -> Seq<u8> {
        self.header.bytes() + self.rest()
    }

    /// Whether one more controller may be added: the table stays within the
    /// range of its length field.
    pub open spec fn has_room(self) -> bool {
        self.header.length + 32 <= u32::MAX
    }

    /// The invariant of the table: the length field is the size of the
    /// serialized table, and the checksum field balances it.
    pub open spec fn valid(self) -> bool {
        self.header.seals(self.rest())
    }

    /// The table with `q` added at its end, and its header sealed anew.
    pub open spec fn appended(self, q: QoSController) -> RqscView {
        let grown = RqscView { controllers: self.controllers.push(q), ..self };
        RqscView { header: self.header.sealing(grown.rest()), ..grown }
    }

    /// The table with each of `run` added at its end, in order.
    pub open spec fn appended_all(self, run: Seq<QoSController>) -> RqscView
        decreases run.len(),
    {
        if run.len() == 0 {
            self
        } else {
            self.appended_all(run.drop_last()).appended(run.last())
        }
    }
}

/// A quality-of-service controller table under construction.
pub struct RQSC {
    header: TableHeader,
    structures: Vec<QoSController>,
}

impl View for RQSC {
    type V = RqscView;

    closed spec fn view(&self) -> RqscView {
        RqscView { header: self.header, controllers: self.structures@ }
    }
}

impl RQSC {
    /// The invariant that every operation keeps.
    pub open spec fn wf(&self) -> bool {
        self@.valid()
    }

    /// A table without controllers.
    pub fn new(oem_id: [u8; 6], oem_table_id: [u8; 8], oem_revision: u32) -> (r: RQSC)
        ensures
            r.wf(),
            r@ == RqscView::initial(oem_id, oem_table_id, oem_revision),
            balanced(r@.bytes()),
            r@.header.length == 40,
            r@.bytes().len() == 40,
    {
        let mut cksum = Checksum::default();

        let mut header = TableHeader {
            signature: RQSC_SIGNATURE,
            length: RQSC_HEADER_LEN as u32,
            revision: 1,
            checksum: 0,
            oem_id,
            oem_table_id,
            oem_revision,
            creator_id: CREATOR_ID,
            creator_revision: CREATOR_REVISION,
        };
        let bytes = header.as_bytes();
        cksum.append(bytes.as_slice());
        header.checksum = cksum.value();

        let r = RQSC { header, structures: Vec::new() };
        proof {
            let open = TableHeader { checksum: 0, ..r.header };
            lemma_header_sum(open);
            assert(r@.rest() =~= le_bytes_u32(0));
            assert(byte_sum(le_bytes_u32(0)) == 0) by {
                lemma_byte_sum_zeros(le_bytes_u32(0));
            }
            lemma_sealing_from_sum(r@.header, r@.rest(), cksum.state() as int);
            let blank = TableHeader { length: 0, checksum: 0, ..r@.header };
            lemma_sealing_identity(r@.header, r@.rest());
            lemma_sealing_identity(blank, r@.rest());
            assert(r@ == RqscView::initial(oem_id, oem_table_id, oem_revision));
            lemma_sealed_table(r@.header, r@.rest());
        }
        r
    }

    // Grows the length field by the size of `data`, then computes the
    // checksum anew: the table, with a zero in its checksum field, is replayed
    // into a fresh accumulator.
    fn update_header(&mut self, data: &[u8])
        requires
            old(self).header.length + data@.len() == 36 + old(self)@.rest().len(),
            old(self).header.length + data@.len() <= u32::MAX,
        ensures
            final(self).structures == old(self).structures,
            final(self).header == old(self).header.sealing(old(self)@.rest()),
            final(self)@.valid(),
    {
        // Fix up the length of the table
        let len: u32 = data.len() as u32;
        let old_len: u32 = self.header.length;
        let new_len: u32 = len + old_len;
        self.header.length = new_len;

        // Fix up checksum
        self.header.checksum = 0;
        let mut cksum = Checksum::default();
        self.to_aml_bytes(&mut cksum);
        proof {
            lemma_checksum_accept_all(0, self@.bytes());
            lemma_byte_sum_concat(self.header.bytes(), self@.rest());
            lemma_header_sum(self.header);
        }
        self.header.checksum = cksum.value();
        proof {
            lemma_sealing_from_sum(self.header, self@.rest(), cksum.state() as int);
            lemma_sealing_identity(self.header, self@.rest());
            lemma_sealing_identity(old(self).header, self@.rest());
        }
    }

    /// Adds a controller at the end.
    pub fn add_controller(&mut self, q: QoSController)
        requires
            old(self).wf(),
            old(self)@.has_room(),
        ensures
            final(self).wf(),
            final(self)@ == old(self)@.appended(q),
            balanced(final(self)@.bytes()),
            final(self)@.header.length == final(self)@.bytes().len(),
            final(self)@.header.length == old(self)@.header.length + 32,
    {
        proof {
            lemma_appended_valid(self@, q);
            lemma_sealed_table(self@.header, self@.rest());
            lemma_aml_concat_push(self@.controllers, q);
            lemma_controller_len(q);
        }
        self.structures.push(q);
        let data = q.as_bytes();
        self.update_header(data.as_slice());
    }

    /// The value of the length field: the size of the serialized table.
    pub fn length(&self) -> (r: u32)
        ensures
            r == self@.header.length,
    {
        self.header.length
    }
}

impl Aml for RQSC {
    open spec fn aml_bytes(&self) -> Seq<u8> {
        self@.bytes()
    }

    /// Delivers the header, the number of controllers, then every controller
    /// in the order in which it was added.
    fn to_aml_bytes<S: AmlSink>(&self, sink: &mut S) {
        let bytes = self.header.as_bytes();
        sink.vec(bytes.as_slice());
        let count: u32 = self.structures.len() as u32;
        sink.dword(count);
        emit_all(&self.structures, sink);
        proof {
            lemma_accept_all_concat::<S>(old(sink).state(), bytes@, le_bytes_u32(count));
            lemma_accept_all_concat::<S>(
                old(sink).state(),
                bytes@ + le_bytes_u32(count),
                aml_concat(self.structures@),
            );
            assert(bytes@ + le_bytes_u32(count) + aml_concat(self.structures@) =~= self@.bytes());
        }
    }
}

/// Adding a controller to a table that has room keeps the table valid: its
/// bytes still sum to zero modulo 256, its length field is still its size,
/// and that size has grown by 32.
pub proof fn lemma_appended_valid(m: RqscView, q: QoSController)
    requires
        m.valid(),
        m.has_room(),
    ensures
        m.appended(q).valid(),
        balanced(m.appended(q).bytes()),
        m.appended(q).header.length == m.appended(q).bytes().len(),
        m.appended(q).bytes().len() == m.bytes().len() + 32,
{
    let after = m.appended(q);
    lemma_controller_len(q);
    lemma_aml_concat_push(m.controllers, q);
    lemma_sealed_table(m.header, m.rest());
    lemma_sealing_identity(m.header, after.rest());
    lemma_sealed_table(after.header, after.rest());
}

/// Adding `run.len()` controllers makes the serialized table longer by
/// exactly `run.len() * 32` bytes.
pub proof fn lemma_fixed_size_run(m: RqscView, run: Seq<QoSController>)
    ensures
        m.appended_all(run).controllers == m.controllers + run,
        m.appended_all(run).bytes().len() == m.bytes().len() + run.len() * 32,
    decreases run.len(),
{
    if run.len() == 0 {
        assert(m.controllers + run =~= m.controllers);
    } else {
        lemma_fixed_size_run(m, run.drop_last());
        assert(m.controllers + run =~= (m.controllers + run.drop_last()).push(run.last()));
        lemma_controllers_len(m.controllers + run);
        lemma_controllers_len(m.controllers + run.drop_last());
        lemma_controllers_len(m.controllers);
    }
}

/// Whatever run of controllers is added to a valid table that has room for
/// them, the serialized table sums to zero modulo 256 and its length field
/// is its size.
pub proof fn lemma_appended_all_valid(m: RqscView, run: Seq<QoSController>)
    requires
        m.valid(),
        m.header.length + 32 * run.len() <= u32::MAX,
    ensures
        m.appended_all(run).valid(),
        balanced(m.appended_all(run).bytes()),
        m.appended_all(run).header.length == m.appended_all(run).bytes().len(),
        m.appended_all(run).header.length == m.header.length + 32 * run.len(),
    decreases run.len(),
{
    lemma_sealed_table(m.header, m.rest());
    if run.len() > 0 {
        lemma_appended_all_valid(m, run.drop_last());
        lemma_appended_valid(m.appended_all(run.drop_last()), run.last());
        lemma_sealed_table(
            m.appended_all(run.drop_last()).header,
            m.appended_all(run.drop_last()).rest(),
        );
    }
}

} // verus!
