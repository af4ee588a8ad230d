use acpi_tables::madt::{
    HartStatus, LocalInterruptController, MadtStructure, APLIC, IMSIC, MADT, MADT_HEADER_LEN, RINTC,
};
use acpi_tables::{generate_checksum, Aml};

fn check_checksum(madt: &MADT) {
    let mut bytes = Vec::new();
    madt.to_aml_bytes(&mut bytes);
    let sum = bytes.iter().fold(0u8, |acc, x| acc.wrapping_add(*x));
    assert_eq!(sum, 0);
}

fn get_size(madt: &MADT) -> usize {
    let mut bytes = Vec::new();
    madt.to_aml_bytes(&mut bytes);
    bytes.len()
}

fn serialize(madt: &MADT) -> Vec<u8> {
    let mut bytes = Vec::new();
    madt.to_aml_bytes(&mut bytes);
    bytes
}

fn length_field(bytes: &[u8]) -> u32 {
    u32::from_le_bytes([bytes[4], bytes[5], bytes[6], bytes[7]])
}

#[test]
fn test_madt() {
    let madt = MADT::new(
        *b"FOOBAR",
        *b"DECAFCOF",
        0xdead_beef,
        LocalInterruptController::Riscv,
    );
    check_checksum(&madt);
    assert_eq!(MADT_HEADER_LEN, get_size(&madt));
}

#[test]
fn test_rintc() {
    let mut madt = MADT::new(
        *b"FOOBAR",
        *b"DECAFCOF",
        0xdead_beef,
        LocalInterruptController::Riscv,
    );
    check_checksum(&madt);
    assert_eq!(MADT_HEADER_LEN, get_size(&madt));

    for i in 0..128 {
        let rintc = RINTC::new(HartStatus::Enabled, 42 + i as u64, (i + 0x1000) as u32);
        madt.add_rintc(rintc);
        check_checksum(&madt);
        assert_eq!(MADT_HEADER_LEN + RINTC::len() * (i + 1), get_size(&madt));
    }
}

#[test]
fn test_imsic() {
    let mut madt = MADT::new(
        *b"FOOBAR",
        *b"DECAFCOF",
        0xdead_beef,
        LocalInterruptController::Riscv,
    );
    check_checksum(&madt);
    assert_eq!(MADT_HEADER_LEN, get_size(&madt));

    let imsic = IMSIC::new(
        10, /* num_supervisor_interrupt_identities */
        10, /* num_guest_interrupt_identities */
        8,  /* guest_index_bits */
        8,  /* hart_index_bits */
        8,  /* group_index_bits */
        8,  /* group_index_shift */
    );
    madt.add_imsic(imsic);
    check_checksum(&madt);
    assert_eq!(MADT_HEADER_LEN + IMSIC::len(), get_size(&madt));
}

#[test]
fn test_aplic() {
    let mut madt = MADT::new(
        *b"FOOBAR",
        *b"DECAFCOF",
        0xdead_beef,
        LocalInterruptController::Riscv,
    );
    check_checksum(&madt);
    assert_eq!(MADT_HEADER_LEN, get_size(&madt));

    for i in 0..2 {
        let aplic = APLIC::new(
            0,                                       /* aplic_id */
            [b'A', b'B', b'C', b'D', b'E', 0, 0, 0], /* hardware_id */
            2,                                       /* number_of_idcs */
            0x8000_0000,                             /* global_system_interrupt_base */
            0x1_0000_0000,                           /* aplic_address */
            0x8192,                                  /* aplic_size */
            767,                                     /* total_external_interrupt_sources */
        );

        madt.add_aplic(aplic);
        check_checksum(&madt);
        assert_eq!(MADT_HEADER_LEN + APLIC::len() * (i + 1), get_size(&madt));
    }
}

#[test]
fn madt_empty_table_bytes() {
    let madt = MADT::new(
        *b"FOOBAR",
        *b"DECAFCOF",
        0xdead_beef,
        LocalInterruptController::Riscv,
    );
    let bytes = serialize(&madt);
    let mut expected: Vec<u8> = Vec::new();
    expected.extend_from_slice(b"APIC");
    expected.extend_from_slice(&[44, 0, 0, 0]);
    expected.push(1);
    expected.push(0);
    expected.extend_from_slice(b"FOOBAR");
    expected.extend_from_slice(b"DECAFCOF");
    expected.extend_from_slice(&[0xef, 0xbe, 0xad, 0xde]);
    expected.extend_from_slice(b"RVAT");
    expected.extend_from_slice(&[0, 0, 0, 1]);
    expected.extend_from_slice(&[0, 0, 0, 0]);
    expected.extend_from_slice(&[0, 0, 0, 0]);
    let sum = expected.iter().fold(0u8, |acc, x| acc.wrapping_add(*x));
    expected[9] = 0u8.wrapping_sub(sum);
    assert_eq!(bytes, expected);
    assert_eq!(bytes[9], 0x5c);
    assert_eq!(madt.length(), 44);
    assert!(!madt.has_imsic());
}

#[test]
fn madt_local_interrupt_controller_address() {
    let madt = MADT::new(
        *b"FOOBAR",
        *b"DECAFCOF",
        0xdead_beef,
        LocalInterruptController::Address(0x1234_5678),
    );
    let bytes = serialize(&madt);
    assert_eq!(bytes[36..40], [0x78, 0x56, 0x34, 0x12]);
    assert_eq!(bytes[40..44], [0, 0, 0, 0]);
    check_checksum(&madt);
}

#[test]
fn rintc_bytes() {
    let rintc = RINTC::new(HartStatus::Enabled, 0x0102_0304_0506_0708, 0x1000);
    assert_eq!(rintc.structure_type, 0x18);
    assert_eq!(rintc.length, 20);
    assert_eq!(rintc.version, 1);
    assert_eq!(rintc.flags, 1);
    assert_eq!(rintc.hart_id, 0x0102_0304_0506_0708);
    assert_eq!(rintc.acpi_processor_uid, 0x1000);
    assert_eq!(
        rintc.as_bytes(),
        vec![
            0x18, 20, 1, 0, 1, 0, 0, 0, 0x08, 0x07, 0x06, 0x05, 0x04, 0x03, 0x02, 0x01, 0x00,
            0x10, 0, 0
        ]
    );
    let mut sunk = Vec::new();
    rintc.to_aml_bytes(&mut sunk);
    assert_eq!(sunk, rintc.as_bytes());
    assert_eq!(RINTC::len(), 20);
}

#[test]
fn hart_status_flags() {
    assert_eq!(HartStatus::Disabled.to_flags(), 0);
    assert_eq!(HartStatus::Enabled.to_flags(), 1);
    assert_eq!(HartStatus::OnlineCapable.to_flags(), 2);
    assert_eq!(RINTC::new(HartStatus::Disabled, 0, 0).flags, 0);
    assert_eq!(RINTC::new(HartStatus::OnlineCapable, 0, 0).flags, 2);
}

#[test]
fn imsic_bytes() {
    let imsic = IMSIC::new(0x0123, 0x0456, 1, 2, 3, 4);
    assert_eq!(
        imsic.as_bytes(),
        vec![0x19, 16, 1, 0, 0, 0, 0, 0, 0x23, 0x01, 0x56, 0x04, 1, 2, 3, 4]
    );
    let mut sunk = Vec::new();
    imsic.to_aml_bytes(&mut sunk);
    assert_eq!(sunk, imsic.as_bytes());
    assert_eq!(IMSIC::len(), 16);
}

#[test]
fn aplic_bytes() {
    let aplic = APLIC::new(
        0x0a0b_0c0d,
        [b'A', b'B', b'C', b'D', b'E', 0, 0, 0],
        2,
        0x8000_0000,
        0x1_0000_0000,
        0x8192,
        767,
    );
    assert_eq!(
        aplic.as_bytes(),
        vec![
            0x1a, 38, 1, 0, 0x0d, 0x0c, 0x0b, 0x0a, b'A', b'B', b'C', b'D', b'E', 0, 0, 0, 2, 0,
            0, 0, 0, 0, 0, 0x80, 0, 0, 0, 0, 1, 0, 0, 0, 0x92, 0x81, 0, 0, 0xff, 0x02
        ]
    );
    let mut sunk = Vec::new();
    aplic.to_aml_bytes(&mut sunk);
    assert_eq!(sunk, aplic.as_bytes());
    assert_eq!(APLIC::len(), 38);
}

#[test]
fn madt_structure_serializes_as_its_content() {
    let rintc = RINTC::new(HartStatus::Enabled, 1, 2);
    let imsic = IMSIC::new(63, 63, 0, 4, 0, 24);
    let aplic = APLIC::new(1, [0; 8], 0, 0, 0x0c00_0000, 0x8000, 96);
    let mut a = Vec::new();
    MadtStructure::Rintc(rintc).to_aml_bytes(&mut a);
    assert_eq!(a, rintc.as_bytes());
    let mut b = Vec::new();
    MadtStructure::Imsic(imsic).to_aml_bytes(&mut b);
    assert_eq!(b, imsic.as_bytes());
    let mut c = Vec::new();
    MadtStructure::Aplic(aplic).to_aml_bytes(&mut c);
    assert_eq!(c, aplic.as_bytes());
}

#[test]
fn madt_structures_in_insertion_order() {
    let mut madt = MADT::new(
        *b"FOOBAR",
        *b"DECAFCOF",
        0xdead_beef,
        LocalInterruptController::Riscv,
    );
    let rintc = RINTC::new(HartStatus::Enabled, 7, 9);
    let imsic = IMSIC::new(63, 63, 0, 4, 0, 24);
    let aplic = APLIC::new(1, [0; 8], 0, 0, 0x0c00_0000, 0x8000, 96);
    madt.add_aplic(aplic);
    madt.add_rintc(rintc);
    assert!(!madt.has_imsic());
    madt.add_imsic(imsic);
    assert!(madt.has_imsic());
    let bytes = serialize(&madt);
    assert_eq!(bytes.len(), 44 + 38 + 20 + 16);
    assert_eq!(bytes[44..82], aplic.as_bytes()[..]);
    assert_eq!(bytes[82..102], rintc.as_bytes()[..]);
    assert_eq!(bytes[102..118], imsic.as_bytes()[..]);
    assert_eq!(length_field(&bytes), 118);
    assert_eq!(madt.length(), 118);
    check_checksum(&madt);
}

#[test]
fn madt_length_field_is_size_after_every_append() {
    let mut madt = MADT::new(
        *b"FOOBAR",
        *b"DECAFCOF",
        0xdead_beef,
        LocalInterruptController::Riscv,
    );
    assert_eq!(length_field(&serialize(&madt)) as usize, get_size(&madt));
    for i in 0..300u32 {
        if i % 3 == 0 {
            madt.add_aplic(APLIC::new(i, [i as u8; 8], i, i, i as u64, i, i as u16));
        } else {
            madt.add_rintc(RINTC::new(HartStatus::OnlineCapable, i as u64, i));
        }
        let bytes = serialize(&madt);
        assert_eq!(length_field(&bytes) as usize, bytes.len());
        assert_eq!(madt.length() as usize, bytes.len());
        check_checksum(&madt);
    }
}

#[test]
fn madt_checksum_field_is_generated_checksum_of_the_rest() {
    let mut madt = MADT::new(
        *b"FOOBAR",
        *b"DECAFCOF",
        0xdead_beef,
        LocalInterruptController::Riscv,
    );
    madt.add_rintc(RINTC::new(HartStatus::Enabled, 42, 0x1000));
    let mut bytes = serialize(&madt);
    let stored = bytes[9];
    bytes[9] = 0;
    assert_eq!(generate_checksum(&bytes), stored);
}

#[test]
fn madt_length_crosses_a_byte_boundary() {
    // 44 + 11 * 20 = 264: the second byte of the length field changes.
    let mut madt = MADT::new(
        *b"FOOBAR",
        *b"DECAFCOF",
        0xdead_beef,
        LocalInterruptController::Riscv,
    );
    for i in 0..11 {
        madt.add_rintc(RINTC::new(HartStatus::Enabled, i, i as u32));
    }
    let bytes = serialize(&madt);
    assert_eq!(bytes[4..8], [0x08, 0x01, 0, 0]);
    check_checksum(&madt);
}

#[test]
fn madt_serialize_twice_gives_the_same_bytes() {
    let mut madt = MADT::new(
        *b"FOOBAR",
        *b"DECAFCOF",
        0xdead_beef,
        LocalInterruptController::Riscv,
    );
    madt.add_rintc(RINTC::new(HartStatus::Enabled, 42, 0x1000));
    madt.add_imsic(IMSIC::new(10, 10, 8, 8, 8, 8));
    let first = serialize(&madt);
    let second = serialize(&madt);
    assert_eq!(first, second);
}

#[test]
fn madt_serialize_appends_to_what_the_sink_holds() {
    let madt = MADT::new(
        *b"FOOBAR",
        *b"DECAFCOF",
        0xdead_beef,
        LocalInterruptController::Riscv,
    );
    let mut bytes = vec![1u8, 2, 3];
    madt.to_aml_bytes(&mut bytes);
    assert_eq!(bytes[..3], [1, 2, 3]);
    assert_eq!(bytes[3..], serialize(&madt)[..]);
}
