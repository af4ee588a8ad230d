//! The multiple APIC description table, with the interrupt controller
//! structures of a RISC-V machine.

use crate::checksum::Checksum;
use crate::encoding::{balanced, le_bytes_u16, le_bytes_u32, le_bytes_u64, lemma_byte_sum_concat};
use crate::header::{
    lemma_header_sum, lemma_incremental_update, lemma_sealed_table, lemma_sealing_from_sum,
    lemma_sealing_identity, open_sum, updated_sum, TableHeader,
};
use crate::sink::{
    aml_concat, emit_all, lemma_accept_all_concat, lemma_aml_concat_push, lemma_aml_concat_split,
    Aml, AmlSink, SinkModel,
};
use crate::wire::{wire_u16, wire_u32, wire_u64};
use crate::{CREATOR_ID, CREATOR_REVISION};
use vstd::prelude::*;

verus! {

/// The type code of a per-hart interrupt controller structure.
pub const RISCV_INTC_STRUCTURE: u8 = 0x18;

/// The type code of an incoming MSI controller structure.
pub const RISCV_IMSIC_STRUCTURE: u8 = 0x19;

/// The type code of a platform-level interrupt controller structure.
pub const RISCV_APLIC_STRUCTURE: u8 = 0x1a;

/// The signature of the table: the ASCII characters `APIC`.
pub const MADT_SIGNATURE: [u8; 4] = [0x41, 0x50, 0x49, 0x43];

/// The size of the table without any structure: the common header, the local
/// interrupt controller address and the flags.
pub const MADT_HEADER_LEN: usize = 44;

/// The size of a serialized per-hart interrupt controller structure.
pub const RINTC_LEN: usize = 20;

/// The size of a serialized incoming MSI controller structure.
pub const IMSIC_LEN: usize = 16;

/// The size of a serialized platform-level interrupt controller structure.
pub const APLIC_LEN: usize = 38;

/// What the table says of the local interrupt controller address.
#[derive(Clone, Copy)]
pub enum LocalInterruptController {
    /// A RISC-V machine: the field is zero, and the operating system ignores
    /// it.
    Riscv,
    /// The given address.
    Address(u32),
}

impl LocalInterruptController {
    /// The value of the address field.
    pub open spec fn address(self) -> u32 {
        match self {
            LocalInterruptController::Riscv => 0,
            LocalInterruptController::Address(addr) => addr,
        }
    }
}

/// Whether a hart can be used.
#[derive(Clone, Copy)]
pub enum HartStatus {
    Disabled,
    Enabled,
    OnlineCapable,
}

impl HartStatus {
    /// The value of the flags field for this status.
    pub open spec fn flags(self) -> u32 {
        match self {
            HartStatus::Disabled => 0,
            HartStatus::Enabled => 1,
            HartStatus::OnlineCapable => 2,
        }
    }

    /// The value of the flags field for this status.
    pub fn to_flags(self) -> (r: u32)
        ensures
            r == self.flags(),
    {
        match self {
            HartStatus::Disabled => 0,
            HartStatus::Enabled => 1,
            HartStatus::OnlineCapable => 2,
        }
    }
}

/// RISC-V interrupt controller structure: the simple interrupt controller
/// that each hart offers to supervisor mode.
#[derive(Clone, Copy, Debug)]
pub struct RINTC {
    pub structure_type: u8,
    pub length: u8,
    pub version: u8,
    pub flags: u32,
    pub hart_id: u64,
    pub acpi_processor_uid: u32,
}

impl RINTC {
    /// The structure for the hart `mhartid`, known to ACPI as processor
    /// `acpi_processor_uid`.
    pub fn new(hart_status: HartStatus, mhartid: u64, acpi_processor_uid: u32) -> (r: RINTC)
        ensures
            r == (RINTC {
                structure_type: 0x18,
                length: 20,
                version: 1,
                flags: hart_status.flags(),
                hart_id: mhartid,
                acpi_processor_uid,
            }),
    {
        RINTC {
            structure_type: RISCV_INTC_STRUCTURE,
            length: RINTC::len() as u8,
            version: 1,
            flags: hart_status.to_flags(),
            hart_id: mhartid,
            acpi_processor_uid,
        }
    }

    /// The size of the serialized structure.
    pub fn len() -> (r: usize)
        ensures
            r == 20,
    {
        RINTC_LEN
    }

    /// The structure on the wire.
    pub fn as_bytes(&self) -> (r: Vec<u8>)
        ensures
            r@ == self.aml_bytes(),
            r@.len() == 20,
    {
        let mut v: Vec<u8> = Vec::new();
        v.push(self.structure_type);
        v.push(self.length);
        v.push(self.version);
        v.push(0);
        let flags: [u8; 4] = wire_u32(self.flags);
        v.extend_from_slice(flags.as_slice());
        let hart_id: [u8; 8] = wire_u64(self.hart_id);
        v.extend_from_slice(hart_id.as_slice());
        let uid: [u8; 4] = wire_u32(self.acpi_processor_uid);
        v.extend_from_slice(uid.as_slice());
        assert(v@ =~= self.aml_bytes());
        v
    }
}

impl Aml for RINTC {
    /// Type, length, version, a reserved zero byte, then the flags, the hart
    /// id and the processor UID, little-endian.
    open spec fn aml_bytes(&self) -> Seq<u8> {
        seq![self.structure_type, self.length, self.version, 0u8] + le_bytes_u32(self.flags)
            + le_bytes_u64(self.hart_id) + le_bytes_u32(self.acpi_processor_uid)
    }

    fn to_aml_bytes<S: AmlSink>(&self, sink: &mut S) {
        let bytes = self.as_bytes();
        sink.vec(bytes.as_slice());
    }
}

/// Incoming MSI controller structure. It holds what all harts share; a table
/// has at most one.
#[derive(Clone, Copy, Debug)]
pub struct IMSIC {
    // How many interrupt identities the supervisor-mode interrupt file
    // supports (63 to 2047).
    num_supervisor_interrupt_identities: u16,
    // How many interrupt identities the guest-mode interrupt file supports
    // (63 to 2047).
    num_guest_interrupt_identities: u16,
    // Number of guest index bits in an MSI target address (0 to 7).
    guest_index_bits: u8,
    // Number of hart index bits in an MSI target address (0 to 15).
    hart_index_bits: u8,
    // Number of group index bits in an MSI target address (0 to 7).
    group_index_bits: u8,
    // Position of the lowest group index bit in an MSI target address (0 to
    // 55).
    group_index_shift: u8,
}

impl IMSIC {
    /// The structure for interrupt files with the given numbers of
    /// identities, and MSI target addresses with the given index fields.
    pub fn new(
        num_supervisor_interrupt_identities: u16,
        num_guest_interrupt_identities: u16,
        guest_index_bits: u8,
        hart_index_bits: u8,
        group_index_bits: u8,
        group_index_shift: u8,
    ) -> (r: IMSIC)
        ensures
            r.aml_bytes() == seq![0x19u8, 16u8, 1u8, 0u8, 0u8, 0u8, 0u8, 0u8] + le_bytes_u16(
                num_supervisor_interrupt_identities,
            ) + le_bytes_u16(num_guest_interrupt_identities) + seq![
                guest_index_bits,
                hart_index_bits,
                group_index_bits,
                group_index_shift,
            ],
    {
        IMSIC {
            num_supervisor_interrupt_identities,
            num_guest_interrupt_identities,
            guest_index_bits,
            hart_index_bits,
            group_index_bits,
            group_index_shift,
        }
    }

    /// The size of the serialized structure.
    pub fn len() -> (r: usize)
        ensures
            r == 16,
    {
        IMSIC_LEN
    }

    /// The structure on the wire.
    pub fn as_bytes(&self) -> (r: Vec<u8>)
        ensures
            r@ == self.aml_bytes(),
            r@.len() == 16,
    {
        let mut v: Vec<u8> = Vec::new();
        v.push(RISCV_IMSIC_STRUCTURE);
        v.push(IMSIC::len() as u8);
        v.push(1);
        let reserved: [u8; 5] = [0, 0, 0, 0, 0];
        v.extend_from_slice(reserved.as_slice());
        let supervisor: [u8; 2] = wire_u16(self.num_supervisor_interrupt_identities);
        v.extend_from_slice(supervisor.as_slice());
        let guest: [u8; 2] = wire_u16(self.num_guest_interrupt_identities);
        v.extend_from_slice(guest.as_slice());
        v.push(self.guest_index_bits);
        v.push(self.hart_index_bits);
        v.push(self.group_index_bits);
        v.push(self.group_index_shift);
        assert(v@ =~= self.aml_bytes());
        v
    }
}

impl Aml for IMSIC {
    /// Type, length, version, five reserved zero bytes, the two identity
    /// counts little-endian, then the four index fields.
    closed spec fn aml_bytes(&self) -> Seq<u8> {
        seq![0x19u8, 16u8, 1u8, 0u8, 0u8, 0u8, 0u8, 0u8] + le_bytes_u16(
            self.num_supervisor_interrupt_identities,
        ) + le_bytes_u16(self.num_guest_interrupt_identities) + seq![
            self.guest_index_bits,
            self.hart_index_bits,
            self.group_index_bits,
            self.group_index_shift,
        ]
    }

    fn to_aml_bytes<S: AmlSink>(&self, sink: &mut S) {
        let bytes = self.as_bytes();
        sink.vec(bytes.as_slice());
    }
}

/// Advanced platform-level interrupt controller structure: the controller of
/// wired interrupts, which it hands to the harts directly or turns into MSIs.
#[derive(Clone, Copy, Debug)]
pub struct APLIC {
    aplic_id: u32,
    hardware_id: [u8; 8],
    number_of_idcs: u32,
    global_system_interrupt_base: u32,
    aplic_address: u64,
    aplic_size: u32,
    total_external_interrupt_sources: u16,
}

impl APLIC {
    /// The structure for the controller `aplic_id`, whose registers take
    /// `aplic_size` bytes at `aplic_address`.
    pub fn new(
        aplic_id: u32,
        hardware_id: [u8; 8],
        number_of_idcs: u32,
        global_system_interrupt_base: u32,
        aplic_address: u64,
        aplic_size: u32,
        total_external_interrupt_sources: u16,
    ) -> (r: APLIC)
        ensures
            r.aml_bytes() == seq![0x1au8, 38u8, 1u8, 0u8] + le_bytes_u32(aplic_id) + hardware_id@
                + le_bytes_u32(number_of_idcs) + le_bytes_u32(global_system_interrupt_base)
                + le_bytes_u64(aplic_address) + le_bytes_u32(aplic_size) + le_bytes_u16(
                total_external_interrupt_sources,
            ),
    {
        APLIC {
            aplic_id,
            hardware_id,
            number_of_idcs,
            global_system_interrupt_base,
            aplic_address,
            aplic_size,
            total_external_interrupt_sources,
        }
    }

    /// The size of the serialized structure.
    pub fn len() -> (r: usize)
        ensures
            r == 38,
    {
        APLIC_LEN
    }

    /// The structure on the wire.
    pub fn as_bytes(&self) -> (r: Vec<u8>)
        ensures
            r@ == self.aml_bytes(),
            r@.len() == 38,
    {
        let mut v: Vec<u8> = Vec::new();
        v.push(RISCV_APLIC_STRUCTURE);
        v.push(APLIC::len() as u8);
        v.push(1);
        v.push(0);
        let aplic_id: [u8; 4] = wire_u32(self.aplic_id);
        v.extend_from_slice(aplic_id.as_slice());
        v.extend_from_slice(self.hardware_id.as_slice());
        let number_of_idcs: [u8; 4] = wire_u32(self.number_of_idcs);
        v.extend_from_slice(number_of_idcs.as_slice());
        let base: [u8; 4] = wire_u32(self.global_system_interrupt_base);
        v.extend_from_slice(base.as_slice());
        let address: [u8; 8] = wire_u64(self.aplic_address);
        v.extend_from_slice(address.as_slice());
        let size: [u8; 4] = wire_u32(self.aplic_size);
        v.extend_from_slice(size.as_slice());
        let sources: [u8; 2] = wire_u16(self.total_external_interrupt_sources);
        v.extend_from_slice(sources.as_slice());
        assert(v@ =~= self.aml_bytes());
        v
    }
}

impl Aml for APLIC {
    /// Type, length, version, a reserved zero byte, the id, the hardware id,
    /// then the count of delivery controllers, the interrupt base, the
    /// address, the size and the count of sources, little-endian.
    closed spec fn aml_bytes(&self) -> Seq<u8> {
        seq![0x1au8, 38u8, 1u8, 0u8] + le_bytes_u32(self.aplic_id) + self.hardware_id@
            + le_bytes_u32(self.number_of_idcs) + le_bytes_u32(self.global_system_interrupt_base)
            + le_bytes_u64(self.aplic_address) + le_bytes_u32(self.aplic_size) + le_bytes_u16(
            self.total_external_interrupt_sources,
        )
    }

    fn to_aml_bytes<S: AmlSink>(&self, sink: &mut S) {
        let bytes = self.as_bytes();
        sink.vec(bytes.as_slice());
    }
}

/// One structure of the table.
#[derive(Clone, Copy, Debug)]
pub enum MadtStructure {
    Rintc(RINTC),
    Imsic(IMSIC),
    Aplic(APLIC),
}

impl Aml for MadtStructure {
    open spec fn aml_bytes(&self) -> Seq<u8> {
        match self {
            MadtStructure::Rintc(s) => s.aml_bytes(),
            MadtStructure::Imsic(s) => s.aml_bytes(),
            MadtStructure::Aplic(s) => s.aml_bytes(),
        }
    }

    fn to_aml_bytes<S: AmlSink>(&self, sink: &mut S) {
        match self {
            MadtStructure::Rintc(s) => s.to_aml_bytes(sink),
            MadtStructure::Imsic(s) => s.to_aml_bytes(sink),
            MadtStructure::Aplic(s) => s.to_aml_bytes(sink),
        }
    }
}

/// The size of a serialized structure, by its kind.
pub open spec fn structure_len(s: MadtStructure) -> nat {
    match s {
        MadtStructure::Rintc(_) => 20,
        MadtStructure::Imsic(_) => 16,
        MadtStructure::Aplic(_) => 38,
    }
}

/// Every structure serializes to the fixed size of its kind.
pub proof fn lemma_structure_len(s: MadtStructure)
    ensures
        s.aml_bytes().len() == structure_len(s),
{
}

/// The table as a mathematical value.
pub struct MadtView {
    pub header: TableHeader,
    pub local_interrupt_controller_address: u32,
    pub flags: u32,
    /// The structures, in the order in which they were added.
    pub structures: Seq<MadtStructure>,
}

impl MadtView {
    /// The table that `MADT::new` builds.
    pub open spec fn initial(
        oem_id: [u8; 6],
        oem_table_id: [u8; 8],
        oem_revision: u32,
        controller: LocalInterruptController,
    ) -> MadtView {
        let blank = MadtView {
            header: TableHeader {
                signature: MADT_SIGNATURE,
                length: 0,
                revision: 1,
                checksum: 0,
                oem_id,
                oem_table_id,
                oem_revision,
                creator_id: CREATOR_ID,
                creator_revision: CREATOR_REVISION,
            },
            local_interrupt_controller_address: controller.address(),
            flags: 0,
            structures: Seq::empty(),
        };
        MadtView { header: blank.header.sealing(blank.rest()), ..blank }
    }

    /// The bytes that follow the common header: the local interrupt
    /// controller address, the flags, and the structures in order.
    pub open spec fn rest(self) -> Seq<u8> {
        le_bytes_u32(self.local_interrupt_controller_address) + le_bytes_u32(self.flags)
            + aml_concat(self.structures)
    }

    /// The serialized table.
    pub open spec fn bytes(self) -> Seq<u8> {
        self.header.bytes() + self.rest()
    }

    /// Whether the table holds an incoming MSI controller structure.
    pub open spec fn has_imsic(self) -> bool {
        exists|i: int| 0 <= i < self.structures.len() && #[trigger] self.structures[i] is Imsic
    }

    /// Whether `s` may be added: the table stays within the range of its
    /// length field, and it does not get a second incoming MSI controller
    /// structure.
    pub open spec fn admits(self, s: MadtStructure) -> bool {
        &&& self.header.length + structure_len(s) <= u32::MAX
        &&& s is Imsic ==> !self.has_imsic()
    }

    /// The invariant of the table: the length field is the size of the
    /// serialized table, the checksum field balances it, and at most one
    /// structure is an incoming MSI controller.
    pub open spec fn valid(self) -> bool {
        &&& self.header.seals(self.rest())
        &&& forall|i: int, j: int|
            0 <= i < j < self.structures.len() && #[trigger] self.structures[i] is Imsic ==> !(
            #[trigger] self.structures[j] is Imsic)
    }

    /// The table with `s` added at its end, and its header sealed anew.
    pub open spec fn appended(self, s: MadtStructure) -> MadtView {
        let grown = MadtView { structures: self.structures.push(s), ..self };
        MadtView { header: self.header.sealing(grown.rest()), ..grown }
    }

    /// The table with each of `run` added at its end, in order.
    pub open spec fn appended_all(self, run: Seq<MadtStructure>) -> MadtView
        decreases run.len(),
    {
        if run.len() == 0 {
            self
        } else {
            self.appended_all(run.drop_last()).appended(run.last())
        }
    }

    /// Whether each of `run` may be added in turn.
    pub open spec fn admits_all(self, run: Seq<MadtStructure>) -> bool
        decreases run.len(),
    {
        run.len() > 0 ==> {
            &&& self.admits_all(run.drop_last())
            &&& self.appended_all(run.drop_last()).admits(run.last())
        }
    }
}

// The fixed part of the table, as it is kept while the table is built.
#[derive(Clone, Copy, Debug)]
struct Header {
    table_header: TableHeader,
    // The operating system ignores this field on a RISC-V machine.
    local_interrupt_controller_address: u32,
    flags: u32,
}

impl Header {
    spec fn bytes(self) -> Seq<u8> {
        self.table_header.bytes() + le_bytes_u32(self.local_interrupt_controller_address)
            + le_bytes_u32(self.flags)
    }

    fn len() -> (r: usize)
        ensures
            r == 44,
    {
        MADT_HEADER_LEN
    }

    fn as_bytes(&self) -> (r: Vec<u8>)
        ensures
            r@ == self.bytes(),
            r@.len() == 44,
    {
        let mut v: Vec<u8> = self.table_header.as_bytes();
        let address: [u8; 4] = wire_u32(self.local_interrupt_controller_address);
        v.extend_from_slice(address.as_slice());
        let flags: [u8; 4] = wire_u32(self.flags);
        v.extend_from_slice(flags.as_slice());
        assert(v@ =~= self.bytes());
        v
    }
}

/// A multiple APIC description table under construction.
pub struct MADT {
    header: Header,
    checksum: Checksum,
    structures: Vec<MadtStructure>,
    has_imsic: bool,
}

impl View for MADT {
    type V = MadtView;

    closed spec fn view(&self) -> MadtView {
        MadtView {
            header: self.header.table_header,
            local_interrupt_controller_address: self.header.local_interrupt_controller_address,
            flags: self.header.flags,
            structures: self.structures@,
        }
    }
}

impl MADT {
    /// Whether the bookkeeping agrees with the table: the accumulator holds
    /// the sum of every byte but the checksum field, and the flag says
    /// whether an incoming MSI controller structure is present.
    pub closed spec fn tracks(&self) -> bool {
        &&& self.sum_tracks()
        &&& self.has_imsic == self@.has_imsic()
    }

    spec fn sum_tracks(&self) -> bool {
        self.checksum.state() == open_sum(self@.header, self@.rest()) % 256
    }

    /// The invariant that every operation keeps.
    pub open spec fn wf(&self) -> bool {
        &&& self@.valid()
        &&& self.tracks()
    }

    /// A table without structures.
    pub fn new(
        oem_id: [u8; 6],
        oem_table_id: [u8; 8],
        oem_revision: u32,
        controller: LocalInterruptController,
    ) -> (r: MADT)
        ensures
            r.wf(),
            r@ == MadtView::initial(oem_id, oem_table_id, oem_revision, controller),
            balanced(r@.bytes()),
            r@.header.length == 44,
            r@.bytes().len() == 44,
            !r@.has_imsic(),
    {
        let mut header = Header {
            table_header: TableHeader {
                signature: MADT_SIGNATURE,
                length: Header::len() as u32,
                revision: 1,
                checksum: 0,
                oem_id,
                oem_table_id,
                oem_revision,
                creator_id: CREATOR_ID,
                creator_revision: CREATOR_REVISION,
            },
            local_interrupt_controller_address: match controller {
                LocalInterruptController::Riscv => 0,
                LocalInterruptController::Address(addr) => addr,
            },
            flags: 0,
        };

        let mut cksum = Checksum::default();
        let bytes = header.as_bytes();
        cksum.append(bytes.as_slice());
        header.table_header.checksum = cksum.value();
        let r = MADT { header, checksum: cksum, structures: Vec::new(), has_imsic: false };
        proof {
            let open = TableHeader { checksum: 0, ..r.header.table_header };
            lemma_header_sum(open);
            let tail = le_bytes_u32(r.header.local_interrupt_controller_address) + le_bytes_u32(
                r.header.flags,
            );
            assert(r@.rest() =~= tail);
            assert(bytes@ =~= open.bytes() + tail);
            lemma_byte_sum_concat(open.bytes(), tail);
            lemma_sealing_from_sum(r@.header, r@.rest(), r.checksum.state() as int);
            let blank = TableHeader { length: 0, checksum: 0, ..r@.header };
            lemma_sealing_identity(r@.header, r@.rest());
            lemma_sealing_identity(blank, r@.rest());
            assert(r@ == MadtView::initial(oem_id, oem_table_id, oem_revision, controller));
            lemma_sealed_table(r@.header, r@.rest());
        }
        r
    }

    // Grows the length field by the size of `data`, and brings the
    // accumulator and the checksum field up to date: the old encoding of the
    // length leaves the running sum, the new one and `data` enter it.
    fn update_header(&mut self, data: &[u8])
        requires
            old(self).header.table_header.length + data@.len() <= u32::MAX,
        ensures
            final(self).header.table_header == (TableHeader {
                length: (old(self).header.table_header.length + data@.len()) as u32,
                checksum: final(self).header.table_header.checksum,
                ..old(self).header.table_header
            }),
            final(self).header.local_interrupt_controller_address == old(
                self,
            ).header.local_interrupt_controller_address,
            final(self).header.flags == old(self).header.flags,
            final(self).structures == old(self).structures,
            final(self).has_imsic == old(self).has_imsic,
            final(self).checksum.state() == updated_sum(
                old(self).checksum.state(),
                old(self).header.table_header.length,
                final(self).header.table_header.length,
                data@,
            ),
            final(self).header.table_header.checksum == crate::encoding::balancing_byte(
                final(self).checksum.state() as int,
            ),
    {
        let len: u32 = data.len() as u32;
        let old_len: u32 = self.header.table_header.length;
        let new_len: u32 = len + old_len;
        self.header.table_header.length = new_len;

        // Remove the bytes of the old length, add the new length and the
        // new data.
        let old_bytes: [u8; 4] = wire_u32(old_len);
        let new_bytes: [u8; 4] = wire_u32(new_len);
        self.checksum.delete(old_bytes.as_slice());
        self.checksum.append(new_bytes.as_slice());
        self.checksum.append(data);
        self.header.table_header.checksum = self.checksum.value();
    }

    // Adds a structure whose serialized form is `data`.
    fn add_structure(&mut self, s: MadtStructure, data: &[u8])
        requires
            old(self).wf(),
            old(self)@.admits(s),
            data@ == s.aml_bytes(),
        ensures
            final(self)@ == old(self)@.appended(s),
            final(self)@.valid(),
            final(self).sum_tracks(),
            final(self).has_imsic == old(self).has_imsic,
            final(self)@.has_imsic() == (old(self)@.has_imsic() || s is Imsic),
            balanced(final(self)@.bytes()),
            final(self)@.header.length == final(self)@.bytes().len(),
            final(self)@.header.length == old(self)@.header.length + structure_len(s),
    {
        proof {
            lemma_structure_len(s);
        }
        self.update_header(data);
        self.structures.push(s);
        proof {
            lemma_aml_concat_push(old(self)@.structures, s);
            assert(self@.rest() =~= old(self)@.rest() + data@);
            lemma_incremental_update(
                old(self)@.header,
                self@.header,
                old(self)@.rest(),
                data@,
                old(self).checksum.state(),
                self.checksum.state(),
            );
            lemma_appended_valid(old(self)@, s);
            lemma_appended_has_imsic(old(self)@, s);
            lemma_sealed_table(old(self)@.header, old(self)@.rest());
        }
    }

    /// Adds a per-hart interrupt controller structure at the end.
    pub fn add_rintc(&mut self, rintc: RINTC)
        requires
            old(self).wf(),
            old(self)@.header.length + 20 <= u32::MAX,
        ensures
            final(self).wf(),
            final(self)@ == old(self)@.appended(MadtStructure::Rintc(rintc)),
            balanced(final(self)@.bytes()),
            final(self)@.header.length == final(self)@.bytes().len(),
            final(self)@.header.length == old(self)@.header.length + 20,
            final(self)@.has_imsic() == old(self)@.has_imsic(),
    {
        let data = rintc.as_bytes();
        self.add_structure(MadtStructure::Rintc(rintc), data.as_slice());
    }

    /// Adds the incoming MSI controller structure at the end. A table takes
    /// one such structure only.
    pub fn add_imsic(&mut self, imsic: IMSIC)
        requires
            old(self).wf(),
            !old(self)@.has_imsic(),
            old(self)@.header.length + 16 <= u32::MAX,
        ensures
            final(self).wf(),
            final(self)@ == old(self)@.appended(MadtStructure::Imsic(imsic)),
            balanced(final(self)@.bytes()),
            final(self)@.header.length == final(self)@.bytes().len(),
            final(self)@.header.length == old(self)@.header.length + 16,
            final(self)@.has_imsic(),
    {
        let data = imsic.as_bytes();
        self.add_structure(MadtStructure::Imsic(imsic), data.as_slice());
        self.has_imsic = true;
    }

    /// Adds a platform-level interrupt controller structure at the end.
    pub fn add_aplic(&mut self, aplic: APLIC)
        requires
            old(self).wf(),
            old(self)@.header.length + 38 <= u32::MAX,
        ensures
            final(self).wf(),
            final(self)@ == old(self)@.appended(MadtStructure::Aplic(aplic)),
            balanced(final(self)@.bytes()),
            final(self)@.header.length == final(self)@.bytes().len(),
            final(self)@.header.length == old(self)@.header.length + 38,
            final(self)@.has_imsic() == old(self)@.has_imsic(),
    {
        let data = aplic.as_bytes();
        self.add_structure(MadtStructure::Aplic(aplic), data.as_slice());
    }

    /// Whether the table holds an incoming MSI controller structure.
    pub fn has_imsic(&self) -> (r: bool)
        requires
            self.wf(),
        ensures
            r == self@.has_imsic(),
    {
        self.has_imsic
    }

    /// The value of the length field: the size of the serialized table.
    pub fn length(&self) -> (r: u32)
        ensures
            r == self@.header.length,
    {
        self.header.table_header.length
    }
}

impl Aml for MADT {
    open spec fn aml_bytes(&self) -> Seq<u8> {
        self@.bytes()
    }

    /// Delivers the header, then every structure in the order in which it was
    /// added.
    fn to_aml_bytes<S: AmlSink>(&self, sink: &mut S) {
        let bytes = self.header.as_bytes();
        sink.vec(bytes.as_slice());
        emit_all(&self.structures, sink);
        proof {
            lemma_accept_all_concat::<S>(
                old(sink).state(),
                bytes@,
                aml_concat(self.structures@),
            );
            assert(bytes@ + aml_concat(self.structures@) =~= self@.bytes());
        }
    }
}

/// Adding a structure that the table admits keeps the table valid: its bytes
/// still sum to zero modulo 256, and its length field is still its size.
pub proof fn lemma_appended_valid(m: MadtView, s: MadtStructure)
    requires
        m.valid(),
        m.admits(s),
    ensures
        m.appended(s).valid(),
        balanced(m.appended(s).bytes()),
        m.appended(s).header.length == m.appended(s).bytes().len(),
        m.appended(s).bytes().len() == m.bytes().len() + structure_len(s),
{
    let after = m.appended(s);
    lemma_structure_len(s);
    lemma_aml_concat_push(m.structures, s);
    lemma_sealed_table(m.header, m.rest());
    assert(after.rest() =~= m.rest() + s.aml_bytes());
    lemma_sealing_identity(m.header, after.rest());
    lemma_sealed_table(after.header, after.rest());
    assert forall|i: int, j: int|
        0 <= i < j < after.structures.len() && #[trigger] after.structures[i] is Imsic implies !(
    #[trigger] after.structures[j] is Imsic) by {
        if j < m.structures.len() {
            assert(m.structures[i] is Imsic);
            assert(!(m.structures[j] is Imsic));
        } else {
            assert(m.structures[i] is Imsic);
        }
    }
}

/// After a structure is added, the table holds an incoming MSI controller
/// structure if it held one before or the new structure is one.
pub proof fn lemma_appended_has_imsic(m: MadtView, s: MadtStructure)
    ensures
        m.appended(s).has_imsic() == (m.has_imsic() || s is Imsic),
{
    let after = m.appended(s);
    if m.has_imsic() {
        let i = choose|i: int| 0 <= i < m.structures.len() && #[trigger] m.structures[i] is Imsic;
        assert(after.structures[i] is Imsic);
    }
    if s is Imsic {
        assert(after.structures[m.structures.len() as int] is Imsic);
    }
    if after.has_imsic() {
        let i = choose|i: int|
            0 <= i < after.structures.len() && #[trigger] after.structures[i] is Imsic;
        if i < m.structures.len() {
            assert(m.structures[i] is Imsic);
        }
    }
}

/// A table takes one incoming MSI controller structure only: a valid table
/// holds at most one, and a table that holds one admits no other.
pub proof fn lemma_one_imsic(m: MadtView, imsic: IMSIC)
    requires
        m.valid(),
    ensures
        m.has_imsic() ==> !m.admits(MadtStructure::Imsic(imsic)),
        forall|i: int, j: int|
            0 <= i < m.structures.len() && 0 <= j < m.structures.len()
                && #[trigger] m.structures[i] is Imsic && #[trigger] m.structures[j] is Imsic
                ==> i == j,
{
    assert forall|i: int, j: int|
        0 <= i < m.structures.len() && 0 <= j < m.structures.len()
            && #[trigger] m.structures[i] is Imsic && #[trigger] m.structures[j] is Imsic implies i
        == j by {
        if i < j {
            assert(!(m.structures[j] is Imsic));
        }
        if j < i {
            assert(!(m.structures[i] is Imsic));
        }
    }
}

/// Whatever run of admitted structures is added to a valid table, the
/// serialized table sums to zero modulo 256 and its length field is its size.
pub proof fn lemma_appended_all_valid(m: MadtView, run: Seq<MadtStructure>)
    requires
        m.valid(),
        m.admits_all(run),
    ensures
        m.appended_all(run).valid(),
        balanced(m.appended_all(run).bytes()),
        m.appended_all(run).header.length == m.appended_all(run).bytes().len(),
    decreases run.len(),
{
    if run.len() == 0 {
        lemma_sealed_table(m.header, m.rest());
    } else {
        lemma_appended_all_valid(m, run.drop_last());
        lemma_appended_valid(m.appended_all(run.drop_last()), run.last());
    }
}

/// Adding a run of structures adds them, in order, after those already there,
/// and changes nothing else but the header's length and checksum.
pub proof fn lemma_appended_all_structures(m: MadtView, run: Seq<MadtStructure>)
    ensures
        m.appended_all(run).structures == m.structures + run,
        m.appended_all(run).bytes().len() == m.bytes().len() + aml_concat(run).len(),
    decreases run.len(),
{
    if run.len() == 0 {
        assert(m.structures + run =~= m.structures);
    } else {
        lemma_appended_all_structures(m, run.drop_last());
        assert(m.structures + run =~= (m.structures + run.drop_last()).push(run.last()));
        lemma_aml_concat_split(m.structures, run);
        lemma_aml_concat_split(m.structures, run.drop_last());
    }
}

/// Adding `run.len()` structures that all have the serialized size `size`
/// makes the serialized table longer by exactly `run.len() * size` bytes.
pub proof fn lemma_fixed_size_run(m: MadtView, run: Seq<MadtStructure>, size: nat)
    requires
        forall|i: int| 0 <= i < run.len() ==> structure_len(#[trigger] run[i]) == size,
    ensures
        m.appended_all(run).bytes().len() == m.bytes().len() + run.len() * size,
    decreases run.len(),
{
    if run.len() > 0 {
        lemma_fixed_size_run(m, run.drop_last(), size);
        lemma_appended_all_structures(m, run);
        lemma_appended_all_structures(m, run.drop_last());
        lemma_structure_len(run.last());
        assert((run.len() - 1) * size + size == run.len() * size) by (nonlinear_arith);
    }
}

} // verus!
