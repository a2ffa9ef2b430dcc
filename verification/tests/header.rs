use dns::header::Header;
use dns::DnsError;

#[test]
fn header_set_flags() {
    let mut options = Header::new();
    options.set_flags(0b0000_0000_0000_0000).unwrap();
    assert_eq!(options.flags(), 0b0000_0000_0000_0000);
}

#[test]
#[should_panic]
fn header_dosnt_allow_wrong_opcode() {
    let mut options = Header::new();
    options.set_flags(0b0111_1000_0000_0000).unwrap();
}

#[test]
#[should_panic]
fn header_dosnt_allow_wrong_z() {
    let mut options = Header::new();
    options.set_flags(0b0000_0000_0000_1111).unwrap();
}

#[test]
fn new_header_is_blank_but_for_the_id() {
    let h = Header::new();
    assert_eq!(h.flags(), 0);
    assert_eq!(h.qdcount(), 0);
    assert_eq!(h.ancount(), 0);
    assert_eq!(h.nscount(), 0);
    assert_eq!(h.arcount(), 0);
    assert_eq!(h.id(), h.id);
    let fixed = Header::with_id(0xBEEF);
    assert_eq!(fixed.id(), 0xBEEF);
    assert_eq!(fixed.flags(), 0);
}

#[test]
fn set_id_keeps_the_rest() {
    let mut h = Header::with_id(1);
    h.set_flags(0x0100).unwrap();
    h.set_id(1234);
    assert_eq!(h.id(), 1234);
    assert_eq!(h.flags(), 0x0100);
    assert_eq!(h.qdcount(), 0);
}

#[test]
fn flags_opcode_above_two_is_reported_with_its_value() {
    let mut h = Header::with_id(7);
    // opcode bits 0111 1000 0000 0000 & mask >> 11 = 15
    assert_eq!(h.set_flags(0b0111_1000_0000_0000), Err(DnsError::InvalidOpcodeFlag(15)));
    // opcode 3
    assert_eq!(h.set_flags(0b0001_1000_0000_0000), Err(DnsError::InvalidOpcodeFlag(3)));
    assert_eq!(h.flags(), 0);
    // opcode 2 is the last one allowed
    assert_eq!(h.set_flags(0b0001_0000_0000_0000), Ok(()));
    assert_eq!(h.flags(), 0b0001_0000_0000_0000);
}

#[test]
fn flags_low_four_bits_are_the_response_code() {
    let mut h = Header::with_id(7);
    assert_eq!(h.set_flags(0b0000_0000_0000_1111), Err(DnsError::InvalidRcodeFlag(15)));
    assert_eq!(h.set_flags(6), Err(DnsError::InvalidRcodeFlag(6)));
    assert_eq!(h.set_flags(5), Ok(()));
    assert_eq!(h.flags(), 5);
}

#[test]
fn flags_z_bits_must_be_zero() {
    let mut h = Header::with_id(7);
    assert_eq!(h.set_flags(0b0000_0000_0111_0000), Err(DnsError::InvalidZFlag(7)));
    assert_eq!(h.set_flags(0b0000_0000_0001_0000), Err(DnsError::InvalidZFlag(1)));
    assert_eq!(h.flags(), 0);
}

#[test]
fn flags_first_violation_wins() {
    let mut h = Header::with_id(7);
    // opcode 3, Z 7, rcode 15: the opcode is reported
    assert_eq!(h.set_flags(0b0001_1000_0111_1111), Err(DnsError::InvalidOpcodeFlag(3)));
    // Z 2, rcode 9: Z is reported
    assert_eq!(h.set_flags(0b0000_0000_0010_1001), Err(DnsError::InvalidZFlag(2)));
}

#[test]
fn flags_other_bits_pass_unchecked() {
    let mut h = Header::with_id(7);
    // QR, AA, TC, RD, RA all set, opcode 2, rcode 5
    let all: u16 = 0b1001_0111_1000_0101;
    assert_eq!(h.set_flags(all), Ok(()));
    assert_eq!(h.flags(), all);
}

#[test]
fn header_encodes_big_endian() {
    let mut h = Header::with_id(0x1234);
    h.set_flags(0x0100).unwrap();
    assert_eq!(h.encode(), vec![0x12, 0x34, 0x01, 0x00, 0, 0, 0, 0, 0, 0, 0, 0]);
}

#[test]
fn header_decodes_six_numbers() {
    let bytes: Vec<u8> = vec![0xAB, 0xCD, 0x81, 0x80, 0, 1, 0, 2, 1, 0, 0xFF, 0xFF, 9, 9];
    let h = Header::decode(&bytes);
    assert_eq!(h.id(), 0xABCD);
    assert_eq!(h.flags(), 0x8180);
    assert_eq!(h.qdcount(), 1);
    assert_eq!(h.ancount(), 2);
    assert_eq!(h.nscount(), 256);
    assert_eq!(h.arcount(), 65535);
    assert_eq!(h.encode(), bytes[..12].to_vec());
}
