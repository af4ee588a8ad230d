use acpi_tables::checksum::u8sum;
use acpi_tables::encoding::{u16_to_le, u32_to_le, u64_to_le};
use acpi_tables::header::{length_has_room, TableHeader, TABLE_HEADER_LEN};
use acpi_tables::madt::{HartStatus, RINTC};
use acpi_tables::{
    generate_checksum, Aml, AmlSink, Checksum, SinkModel, CREATOR_ID, CREATOR_REVISION,
};

fn header() -> TableHeader {
    TableHeader {
        signature: *b"TEST",
        length: 0x0403_0201,
        revision: 7,
        checksum: 9,
        oem_id: *b"OEMOEM",
        oem_table_id: *b"TABLEIDX",
        oem_revision: 0x0807_0605,
        creator_id: CREATOR_ID,
        creator_revision: CREATOR_REVISION,
    }
}

#[test]
fn little_endian_encodings() {
    assert_eq!(u16_to_le(0x1234), [0x34, 0x12]);
    assert_eq!(u16_to_le(0), [0, 0]);
    assert_eq!(u16_to_le(0xffff), [0xff, 0xff]);
    assert_eq!(u32_to_le(0x1234_5678), [0x78, 0x56, 0x34, 0x12]);
    assert_eq!(u32_to_le(0xdead_beef), 0xdead_beefu32.to_le_bytes());
    assert_eq!(u32_to_le(u32::MAX), [0xff; 4]);
    assert_eq!(
        u64_to_le(0x0102_0304_0506_0708),
        [0x08, 0x07, 0x06, 0x05, 0x04, 0x03, 0x02, 0x01]
    );
    assert_eq!(u64_to_le(0x9012_1234_5678), 0x9012_1234_5678u64.to_le_bytes());
    assert_eq!(u64_to_le(u64::MAX), [0xff; 8]);
}

#[test]
fn sink_takes_integers_least_significant_byte_first() {
    let mut bytes: Vec<u8> = Vec::new();
    bytes.byte(0xab);
    bytes.word(0x1234);
    bytes.dword(0x5678_9abc);
    bytes.qword(0x0102_0304_0506_0708);
    bytes.vec(&[9, 8, 7]);
    assert_eq!(
        bytes,
        vec![
            0xab, 0x34, 0x12, 0xbc, 0x9a, 0x78, 0x56, 0x08, 0x07, 0x06, 0x05, 0x04, 0x03, 0x02,
            0x01, 9, 8, 7
        ]
    );
}

#[test]
fn checksum_as_a_sink_sums_what_a_buffer_would_hold() {
    let mut bytes: Vec<u8> = Vec::new();
    let mut cksum = Checksum::default();
    bytes.word(0xfffe);
    cksum.word(0xfffe);
    bytes.dword(0x8000_00ff);
    cksum.dword(0x8000_00ff);
    bytes.qword(0xff00_ff00_ff00_ff00);
    cksum.qword(0xff00_ff00_ff00_ff00);
    bytes.byte(3);
    cksum.byte(3);
    bytes.vec(&[200, 100]);
    cksum.vec(&[200, 100]);
    let sum = bytes.iter().fold(0u8, |acc, x| acc.wrapping_add(*x));
    assert_eq!(cksum.raw(), sum);
    assert_eq!(cksum.value(), 0u8.wrapping_sub(sum));
}

#[test]
fn generate_checksum_balances() {
    assert_eq!(generate_checksum(&[]), 0);
    assert_eq!(generate_checksum(&[1]), 255);
    assert_eq!(generate_checksum(&[1, 2, 255]), 254);
    assert_eq!(generate_checksum(&[0x80, 0x80]), 0);
    assert_eq!(generate_checksum(&[255; 1000]), 232);
    let data = [17u8, 200, 3, 99, 250];
    let c = generate_checksum(&data);
    let sum = data.iter().fold(c, |acc, x| acc.wrapping_add(*x));
    assert_eq!(sum, 0);
}

#[test]
fn checksum_of_nothing() {
    let cksum = Checksum::default();
    assert_eq!(cksum.raw(), 0);
    assert_eq!(cksum.value(), 0);
}

#[test]
fn checksum_append() {
    let mut cksum = Checksum::default();
    cksum.append(&[1, 2, 3]);
    assert_eq!(cksum.raw(), 6);
    assert_eq!(cksum.value(), 250);
    cksum.append(&[250]);
    assert_eq!(cksum.raw(), 0);
    assert_eq!(cksum.value(), 0);
    cksum.append(&[255, 255]);
    assert_eq!(cksum.raw(), 254);
    assert_eq!(cksum.value(), 2);
}

#[test]
fn checksum_delete_undoes_append() {
    let mut cksum = Checksum::default();
    cksum.append(&[10, 20, 30]);
    let before = cksum.raw();
    cksum.append(&[0xff, 0x01, 0x80, 0x7f]);
    cksum.delete(&[0xff, 0x01, 0x80, 0x7f]);
    assert_eq!(cksum.raw(), before);
    cksum.delete(&[10, 20, 30]);
    assert_eq!(cksum.raw(), 0);
    cksum.delete(&[1]);
    assert_eq!(cksum.raw(), 255);
    assert_eq!(cksum.value(), 1);
}

#[test]
fn checksum_add_is_append_of_the_structure() {
    let rintc = RINTC::new(HartStatus::Enabled, 0xdead_beef_cafe_f00d, 0xffff_ffff);
    let mut by_bytes = Checksum::default();
    by_bytes.append(&[5, 6]);
    by_bytes.append(&rintc.as_bytes());
    let mut by_sum = Checksum::default();
    by_sum.append(&[5, 6]);
    by_sum.add(u8sum(&rintc));
    assert_eq!(by_sum.raw(), by_bytes.raw());
    assert_eq!(by_sum.value(), by_bytes.value());
    let mut by_sink = Checksum::default();
    by_sink.append(&[5, 6]);
    rintc.to_aml_bytes(&mut by_sink);
    assert_eq!(by_sink.raw(), by_bytes.raw());
}

#[test]
fn checksum_replaces_a_length_field() {
    // A stream that holds a length of 300, then is told that the length is
    // 70000 and that four more bytes follow.
    let mut cksum = Checksum::default();
    cksum.append(&[b'A', b'B']);
    cksum.append(&300u32.to_le_bytes());
    cksum.delete(&300u32.to_le_bytes());
    cksum.append(&70000u32.to_le_bytes());
    cksum.append(&[1, 2, 3, 4]);
    let mut whole: Vec<u8> = vec![b'A', b'B'];
    whole.extend_from_slice(&70000u32.to_le_bytes());
    whole.extend_from_slice(&[1, 2, 3, 4]);
    assert_eq!(cksum.value(), generate_checksum(&whole));
}

#[test]
fn u8sum_is_the_wrapping_sum_of_the_bytes() {
    let rintc = RINTC::new(HartStatus::OnlineCapable, u64::MAX, u32::MAX);
    let bytes = rintc.as_bytes();
    assert_eq!(u8sum(&rintc), bytes.iter().fold(0u8, |acc, x| acc.wrapping_add(*x)));
    assert_eq!(u8sum(&rintc), 35);
}

#[test]
fn table_header_bytes() {
    let h = header();
    let bytes = h.as_bytes();
    assert_eq!(bytes.len(), 36);
    assert_eq!(TableHeader::len(), 36);
    assert_eq!(TABLE_HEADER_LEN, 36);
    assert_eq!(bytes[0..4], *b"TEST");
    assert_eq!(bytes[4..8], [1, 2, 3, 4]);
    assert_eq!(bytes[8], 7);
    assert_eq!(bytes[9], 9);
    assert_eq!(bytes[10..16], *b"OEMOEM");
    assert_eq!(bytes[16..24], *b"TABLEIDX");
    assert_eq!(bytes[24..28], [5, 6, 7, 8]);
    assert_eq!(bytes[28..32], *b"RVAT");
    assert_eq!(bytes[32..36], [0, 0, 0, 1]);
}

#[test]
fn length_has_room_up_to_the_largest_length() {
    assert!(length_has_room(0, 0));
    assert!(length_has_room(44, 20));
    assert!(length_has_room(u32::MAX - 20, 20));
    assert!(!length_has_room(u32::MAX - 19, 20));
    assert!(length_has_room(u32::MAX, 0));
    assert!(!length_has_room(u32::MAX, 1));
    assert!(length_has_room(0, u32::MAX as usize));
}

// A sink over a fixed area, which drops what does not fit.
struct Scratch {
    area: [u8; 40],
    used: usize,
}

impl SinkModel for Scratch {
    type State = Vec<u8>;

    fn state(&self) -> Vec<u8> {
        self.area[..self.used].to_vec()
    }

    fn accept(mut state: Vec<u8>, byte: u8) -> Vec<u8> {
        if state.len() < 40 {
            state.push(byte);
        }
        state
    }
}

impl AmlSink for Scratch {
    fn byte(&mut self, byte: u8) {
        if self.used < self.area.len() {
            self.area[self.used] = byte;
            self.used += 1;
        }
    }
}

#[test]
fn a_sink_of_the_callers_own_takes_a_structure() {
    let rintc = RINTC::new(HartStatus::Enabled, 42, 0x1000);
    let mut scratch = Scratch { area: [0; 40], used: 0 };
    rintc.to_aml_bytes(&mut scratch);
    assert_eq!(scratch.used, 20);
    assert_eq!(scratch.area[..20], rintc.as_bytes()[..]);
    scratch.qword(0x0807_0605_0403_0201);
    scratch.dword(0x0c0b_0a09);
    scratch.word(0x0e0d);
    assert_eq!(scratch.area[20..34], [1, 2, 3, 4, 5, 6, 7, 8, 9, 10, 11, 12, 13, 14]);
    let before = scratch.state();
    rintc.to_aml_bytes(&mut scratch);
    assert_eq!(scratch.used, 40);
    assert_eq!(scratch.area[34..], rintc.as_bytes()[..6]);
    let modelled = rintc.as_bytes().iter().fold(before, |state, b| Scratch::accept(state, *b));
    assert_eq!(scratch.state(), modelled);
}
