//! The generic address structure: where a register lives.

use crate::encoding::le_bytes_u64;
use crate::sink::{Aml, AmlSink};
use crate::wire::wire_u64;
use vstd::prelude::*;

verus! {

/// The size of a serialized generic address structure.
pub const GAS_LEN: usize = 12;

/// The address space in which a register lives.
#[derive(Clone, Copy, Debug)]
pub enum AddressSpace {
    SystemMemory,
    SystemIo,
    PciConfigSpace,
    EmbeddedController,
    Smbus,
    SystemCmos,
    PciBarTarget,
    Ipmi,
    GeneralPurposeIo,
    GenericSerialBus,
    PlatformCommunicationsChannel,
    FunctionalFixedHardware,
}

impl AddressSpace {
    /// The code of the address space on the wire.
    pub open spec fn code(self) -> u8 {
        match self {
            AddressSpace::SystemMemory => 0,
            AddressSpace::SystemIo => 1,
            AddressSpace::PciConfigSpace => 2,
            AddressSpace::EmbeddedController => 3,
            AddressSpace::Smbus => 4,
            AddressSpace::SystemCmos => 5,
            AddressSpace::PciBarTarget => 6,
            AddressSpace::Ipmi => 7,
            AddressSpace::GeneralPurposeIo => 8,
            AddressSpace::GenericSerialBus => 9,
            AddressSpace::PlatformCommunicationsChannel => 10,
            AddressSpace::FunctionalFixedHardware => 0x7f,
        }
    }

    /// The code of the address space on the wire.
    pub fn to_code(self) -> (r: u8)
        ensures
            r == self.code(),
    {
        match self {
            AddressSpace::SystemMemory => 0,
            AddressSpace::SystemIo => 1,
            AddressSpace::PciConfigSpace => 2,
            AddressSpace::EmbeddedController => 3,
            AddressSpace::Smbus => 4,
            AddressSpace::SystemCmos => 5,
            AddressSpace::PciBarTarget => 6,
            AddressSpace::Ipmi => 7,
            AddressSpace::GeneralPurposeIo => 8,
            AddressSpace::GenericSerialBus => 9,
            AddressSpace::PlatformCommunicationsChannel => 10,
            AddressSpace::FunctionalFixedHardware => 0x7f,
        }
    }
}

/// The width of one access to a register.
#[derive(Clone, Copy, Debug)]
pub enum AccessSize {
    Undefined,
    ByteAccess,
    WordAccess,
    DwordAccess,
    QwordAccess,
}

impl AccessSize {
    /// The code of the access size on the wire.
    pub open spec fn code(self) -> u8 {
        match self {
            AccessSize::Undefined => 0,
            AccessSize::ByteAccess => 1,
            AccessSize::WordAccess => 2,
            AccessSize::DwordAccess => 3,
            AccessSize::QwordAccess => 4,
        }
    }

    /// The code of the access size on the wire.
    pub fn to_code(self) -> (r: u8)
        ensures
            r == self.code(),
    {
        match self {
            AccessSize::Undefined => 0,
            AccessSize::ByteAccess => 1,
            AccessSize::WordAccess => 2,
            AccessSize::DwordAccess => 3,
            AccessSize::QwordAccess => 4,
        }
    }
}

/// A generic address structure.
#[derive(Clone, Copy, Debug)]
pub struct GAS {
    pub address_space_id: u8,
    pub register_bit_width: u8,
    pub register_bit_offset: u8,
    pub access_size: u8,
    pub address: u64,
}

impl GAS {
    /// The structure for a register of `register_bit_width` bits, which
    /// starts `register_bit_offset` bits into `address`.
    pub fn new(
        address_space_id: AddressSpace,
        register_bit_width: u8,
        register_bit_offset: u8,
        access_size: AccessSize,
        address: u64,
    ) -> (r: GAS)
        ensures
            r == (GAS {
                address_space_id: address_space_id.code(),
                register_bit_width,
                register_bit_offset,
                access_size: access_size.code(),
                address,
            }),
    {
        GAS {
            address_space_id: address_space_id.to_code(),
            register_bit_width,
            register_bit_offset,
            access_size: access_size.to_code(),
            address,
        }
    }

    /// The size of the serialized structure.
    pub fn len() -> (r: usize)
        ensures
            r == 12,
    {
        GAS_LEN
    }

    /// The structure on the wire.
    pub fn as_bytes(&self) -> (r: Vec<u8>)
        ensures
            r@ == self.aml_bytes(),
            r@.len() == 12,
    {
        let mut v: Vec<u8> = Vec::new();
        v.push(self.address_space_id);
        v.push(self.register_bit_width);
        v.push(self.register_bit_offset);
        v.push(self.access_size);
        let address: [u8; 8] = wire_u64(self.address);
        v.extend_from_slice(address.as_slice());
        assert(v@ =~= self.aml_bytes());
        v
    }
}

impl Aml for GAS {
    /// The address space, the bit width, the bit offset and the access size,
    /// one byte each, then the address, little-endian.
    open spec fn aml_bytes(&self) -> Seq<u8> {
        seq![
            self.address_space_id,
            self.register_bit_width,
            self.register_bit_offset,
            self.access_size,
        ] + le_bytes_u64(self.address)
    }

    fn to_aml_bytes<S: AmlSink>(&self, sink: &mut S) {
        let bytes = self.as_bytes();
        sink.vec(bytes.as_slice());
    }
}

} // verus!
