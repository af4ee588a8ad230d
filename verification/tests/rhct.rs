use acpi_tables::rhct::{
    HartInfoNode, IsaStringNode, RhctNode, ISA_STRING_MAX_LEN, RHCT, RHCT_HEADER_LEN,
};
use acpi_tables::Aml;

fn serialize_table(rhct: &RHCT) -> Vec<u8> {
    let mut bytes = Vec::new();
    rhct.to_aml_bytes(&mut bytes);
    bytes
}

fn wrapping_sum(bytes: &[u8]) -> u8 {
    bytes.iter().fold(0u8, |acc, x| acc.wrapping_add(*x))
}

fn dword_at(bytes: &[u8], at: usize) -> u32 {
    u32::from_le_bytes([bytes[at], bytes[at + 1], bytes[at + 2], bytes[at + 3]])
}

#[test]
fn test_rhct() {
    let mut bytes = Vec::new();
    let rhct = RHCT::new(
        [b'R', b'I', b'V', b'O', b'S', 0],       /* oem_id */
        [b'R', b'I', b'V', b'O', b'S', 0, 0, 0], /* oem_table_id */
        42u32,                                   /* oem_revision */
        0x9012_1234_5678,                        /* timebase_frequency */
    );

    rhct.to_aml_bytes(&mut bytes);
    let sum = bytes.iter().fold(0u8, |acc, x| acc.wrapping_add(*x));
    assert_eq!(sum, 0);
}

#[test]
fn test_isa() {
    let mut bytes = Vec::new();
    let mut rhct = RHCT::new(
        [b'R', b'I', b'V', b'O', b'S', 0],       /* oem_id */
        [b'R', b'I', b'V', b'O', b'S', 0, 0, 0], /* oem_table_id */
        42u32,                                   /* oem_revision */
        0x9012_1234_5678,                        /* timebase_frequency */
    );

    let _ = rhct.add_isa_string("foobar");
    let _ = rhct.add_isa_string("blahblah");
    let _ = rhct.add_isa_string("quux");

    rhct.to_aml_bytes(&mut bytes);
    let sum = bytes.iter().fold(0u8, |acc, x| acc.wrapping_add(*x));
    assert_eq!(sum, 0);
}

#[test]
fn test_hartinfo() {
    let mut bytes = Vec::new();
    let mut rhct = RHCT::new(
        [b'A', b'C', b'P', b'I', 0, 0],       /* oem_id */
        [b'A', b'C', b'P', b'I', 0, 0, 0, 0], /* oem_table_id */
        42u32,                                /* oem_revision */
        0x9012_1234_5678,                     /* timebase_frequency */
    );

    let h = rhct.add_isa_string("foobar");
    let b = rhct.add_isa_string("blah");

    for i in 0..128 {
        let hi = if i < 64 {
            HartInfoNode::new(i as u32, &h)
        } else {
            HartInfoNode::new(i as u32, &b)
        };

        rhct.add_hart_info(hi);
    }

    rhct.to_aml_bytes(&mut bytes);
    let sum = bytes.iter().fold(0u8, |acc, x| acc.wrapping_add(*x));
    assert_eq!(sum, 0);
}

#[test]
fn rhct_empty_table_bytes() {
    let rhct = RHCT::new(
        [b'R', b'I', b'V', b'O', b'S', 0],
        [b'R', b'I', b'V', b'O', b'S', 0, 0, 0],
        42u32,
        0x9012_1234_5678,
    );
    let bytes = serialize_table(&rhct);
    let mut expected: Vec<u8> = Vec::new();
    expected.extend_from_slice(b"RHCT");
    expected.extend_from_slice(&[56, 0, 0, 0]);
    expected.push(1);
    expected.push(0);
    expected.extend_from_slice(&[b'R', b'I', b'V', b'O', b'S', 0]);
    expected.extend_from_slice(&[b'R', b'I', b'V', b'O', b'S', 0, 0, 0]);
    expected.extend_from_slice(&[42, 0, 0, 0]);
    expected.extend_from_slice(b"RVAT");
    expected.extend_from_slice(&[0, 0, 0, 1]);
    expected.extend_from_slice(&[0, 0, 0, 0]);
    expected.extend_from_slice(&[0x78, 0x56, 0x34, 0x12, 0x12, 0x90, 0, 0]);
    expected.extend_from_slice(&[0, 0, 0, 0]);
    expected.extend_from_slice(&[56, 0, 0, 0]);
    let sum = wrapping_sum(&expected);
    expected[9] = 0u8.wrapping_sub(sum);
    assert_eq!(bytes, expected);
    assert_eq!(bytes.len(), RHCT_HEADER_LEN);
    assert_eq!(rhct.length(), 56);
}

#[test]
fn isa_string_node_bytes_with_padding() {
    // Six bytes of string and the terminator make seven: one byte of padding.
    let node = IsaStringNode::new("foobar");
    let mut bytes = Vec::new();
    node.to_aml_bytes(&mut bytes);
    assert_eq!(
        bytes,
        vec![0, 0, 16, 0, 1, 0, 7, 0, b'f', b'o', b'o', b'b', b'a', b'r', 0, 0]
    );
    assert_eq!(node.len(), 16);
    assert_eq!(node.u8sum(), wrapping_sum(&bytes));
}

#[test]
fn isa_string_node_bytes_without_padding() {
    // Five bytes of string and the terminator make six: no padding.
    let node = IsaStringNode::new("rv64i");
    let mut bytes = Vec::new();
    node.to_aml_bytes(&mut bytes);
    assert_eq!(
        bytes,
        vec![0, 0, 14, 0, 1, 0, 6, 0, b'r', b'v', b'6', b'4', b'i', 0]
    );
    assert_eq!(node.len(), 14);
    assert_eq!(node.u8sum(), wrapping_sum(&bytes));
}

#[test]
fn isa_string_node_of_the_empty_string() {
    let node = IsaStringNode::new("");
    let mut bytes = Vec::new();
    node.to_aml_bytes(&mut bytes);
    assert_eq!(bytes, vec![0, 0, 10, 0, 1, 0, 1, 0, 0, 0]);
    assert_eq!(node.len(), 10);
    assert_eq!(node.u8sum(), 12);
}

#[test]
fn isa_string_node_counts_bytes_not_characters() {
    let node = IsaStringNode::new("é");
    let mut bytes = Vec::new();
    node.to_aml_bytes(&mut bytes);
    assert_eq!(bytes, vec![0, 0, 12, 0, 1, 0, 3, 0, 0xc3, 0xa9, 0, 0]);
    assert_eq!(node.len(), 12);
}

#[test]
fn isa_string_node_holds_up_to_the_longest_string() {
    assert_eq!(ISA_STRING_MAX_LEN, 65525);
    assert!(IsaStringNode::holds(""));
    assert!(IsaStringNode::holds("rv64imafdc"));
    let longest: &'static str = Box::leak("a".repeat(65525).into_boxed_str());
    let too_long: &'static str = Box::leak("a".repeat(65526).into_boxed_str());
    assert!(IsaStringNode::holds(longest));
    assert!(!IsaStringNode::holds(too_long));
    let node = IsaStringNode::new(longest);
    assert_eq!(node.len(), 65534);
    let mut bytes = Vec::new();
    node.to_aml_bytes(&mut bytes);
    assert_eq!(bytes.len(), 65534);
    assert_eq!(bytes[..8], [0, 0, 0xfe, 0xff, 1, 0, 0xf6, 0xff]);
    assert_eq!(bytes[65533], 0);
}

#[test]
fn hart_info_node_bytes() {
    let mut rhct = RHCT::new([0; 6], [0; 8], 0, 0);
    let handle = rhct.add_isa_string("rv64imafdc");
    assert_eq!(handle.offset(), 56);
    let node = HartInfoNode::new(0x0a0b_0c0d, &handle);
    let mut bytes = Vec::new();
    node.to_aml_bytes(&mut bytes);
    assert_eq!(
        bytes,
        vec![0xff, 0xff, 16, 0, 1, 0, 1, 0, 0x0d, 0x0c, 0x0b, 0x0a, 56, 0, 0, 0]
    );
    assert_eq!(HartInfoNode::len(), 16);
    assert_eq!(node.u8sum(), wrapping_sum(&bytes));
}

#[test]
fn rhct_node_serializes_as_its_content() {
    let mut rhct = RHCT::new([0; 6], [0; 8], 0, 0);
    let handle = rhct.add_isa_string("x");
    let mut direct = Vec::new();
    HartInfoNode::new(3, &handle).to_aml_bytes(&mut direct);
    let mut wrapped = Vec::new();
    RhctNode::HartInfo(HartInfoNode::new(3, &handle)).to_aml_bytes(&mut wrapped);
    assert_eq!(direct, wrapped);
    let mut direct = Vec::new();
    IsaStringNode::new("x").to_aml_bytes(&mut direct);
    let mut wrapped = Vec::new();
    RhctNode::IsaString(IsaStringNode::new("x")).to_aml_bytes(&mut wrapped);
    assert_eq!(direct, wrapped);
}

#[test]
fn handles_are_the_offsets_of_their_nodes() {
    let mut rhct = RHCT::new(
        [b'A', b'C', b'P', b'I', 0, 0],
        [b'A', b'C', b'P', b'I', 0, 0, 0, 0],
        42u32,
        0x9012_1234_5678,
    );
    let h = rhct.add_isa_string("foobar");
    let b = rhct.add_isa_string("blah");
    assert_eq!(h.offset(), 56);
    assert_eq!(b.offset(), 56 + 16);

    for i in 0..128 {
        let hi = if i < 64 {
            HartInfoNode::new(i as u32, &h)
        } else {
            HartInfoNode::new(i as u32, &b)
        };
        rhct.add_hart_info(hi);
    }
    let bytes = serialize_table(&rhct);
    assert_eq!(wrapping_sum(&bytes), 0);
    assert_eq!(bytes.len(), 56 + 16 + 14 + 128 * 16);

    // What each handle points at is the node it was given out for.
    let mut foobar = Vec::new();
    IsaStringNode::new("foobar").to_aml_bytes(&mut foobar);
    let at = h.offset() as usize;
    assert_eq!(bytes[at..at + 16], foobar[..]);
    let mut blah = Vec::new();
    IsaStringNode::new("blah").to_aml_bytes(&mut blah);
    let at = b.offset() as usize;
    assert_eq!(bytes[at..at + 14], blah[..]);

    // Every hart info node encodes the offset it was made from.
    let first = 56 + 16 + 14;
    for i in 0..128usize {
        let node = first + i * 16;
        assert_eq!(bytes[node..node + 2], [0xff, 0xff]);
        assert_eq!(dword_at(&bytes, node + 8), i as u32);
        let expected = if i < 64 { h.offset() } else { b.offset() };
        assert_eq!(dword_at(&bytes, node + 12), expected);
    }
}

#[test]
fn rhct_counts_nodes_and_keeps_length() {
    let mut rhct = RHCT::new([1; 6], [2; 8], 3, 4);
    let mut expected_len = 56usize;
    for i in 0..70u32 {
        if i % 2 == 0 {
            let h = rhct.add_isa_string("rv64imafdc_zicsr");
            assert_eq!(h.offset() as usize, expected_len);
            expected_len += 26;
        } else {
            let h = rhct.add_isa_string("rv32e");
            rhct.add_hart_info(HartInfoNode::new(i, &h));
            expected_len += 14 + 16;
        }
        let bytes = serialize_table(&rhct);
        assert_eq!(bytes.len(), expected_len);
        assert_eq!(dword_at(&bytes, 4) as usize, expected_len);
        assert_eq!(rhct.length() as usize, expected_len);
        assert_eq!(wrapping_sum(&bytes), 0);
    }
    let bytes = serialize_table(&rhct);
    // 35 ISA strings of the first kind, 35 of the second, 35 hart infos.
    assert_eq!(dword_at(&bytes, 48), 105);
    assert_eq!(dword_at(&bytes, 52), 56);
    assert_eq!(dword_at(&bytes, 36), 0);
}

#[test]
fn rhct_node_count_crosses_a_byte_boundary() {
    let mut rhct = RHCT::new([0; 6], [0; 8], 0, 0);
    let h = rhct.add_isa_string("rv64");
    for i in 0..300u32 {
        rhct.add_hart_info(HartInfoNode::new(i, &h));
        let bytes = serialize_table(&rhct);
        assert_eq!(wrapping_sum(&bytes), 0);
        assert_eq!(dword_at(&bytes, 48), i + 2);
    }
}

#[test]
fn rhct_serialize_twice_gives_the_same_bytes() {
    let mut rhct = RHCT::new([0; 6], [0; 8], 0, 10_000_000);
    let h = rhct.add_isa_string("rv64imafdc");
    rhct.add_hart_info(HartInfoNode::new(0, &h));
    assert_eq!(serialize_table(&rhct), serialize_table(&rhct));
}
