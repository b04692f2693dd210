use dns_packet::error::DnsPacketParseError;
use dns_packet::reader::{get16, get32, get8};

const BYTES: &[u8] = &[0x01, 0x02, 0x03, 0x04, 0xff];

#[test]
fn get8_reads_one_byte() {
    assert_eq!(get8(0, BYTES), Ok(0x01));
    assert_eq!(get8(4, BYTES), Ok(0xff));
}

#[test]
fn get8_past_the_end() {
    assert_eq!(
        get8(5, BYTES),
        Err(DnsPacketParseError::OutOfBounds {
            index: 5,
            length: 5
        })
    );
    assert_eq!(
        get8(0, &[]),
        Err(DnsPacketParseError::OutOfBounds {
            index: 0,
            length: 0
        })
    );
    assert_eq!(
        get8(usize::MAX, BYTES),
        Err(DnsPacketParseError::OutOfBounds {
            index: usize::MAX,
            length: 5
        })
    );
}

#[test]
fn get16_is_big_endian() {
    assert_eq!(get16(0, BYTES), Ok(0x0102));
    assert_eq!(get16(3, BYTES), Ok(0x04ff));
    assert_eq!(get16(0, &[0xff, 0xff]), Ok(0xffff));
}

#[test]
fn get16_reports_the_first_missing_byte() {
    assert_eq!(
        get16(4, BYTES),
        Err(DnsPacketParseError::OutOfBounds {
            index: 5,
            length: 5
        })
    );
    assert_eq!(
        get16(7, BYTES),
        Err(DnsPacketParseError::OutOfBounds {
            index: 7,
            length: 5
        })
    );
    assert_eq!(
        get16(0, &[]),
        Err(DnsPacketParseError::OutOfBounds {
            index: 0,
            length: 0
        })
    );
    assert_eq!(
        get16(usize::MAX, BYTES),
        Err(DnsPacketParseError::OutOfBounds {
            index: usize::MAX,
            length: 5
        })
    );
}

#[test]
fn get32_is_big_endian() {
    assert_eq!(get32(0, BYTES), Ok(0x01020304));
    assert_eq!(get32(1, BYTES), Ok(0x020304ff));
    assert_eq!(get32(0, &[0xff, 0xff, 0xff, 0xff]), Ok(u32::MAX));
    assert_eq!(get32(0, &[0, 0, 1, 8]), Ok(264));
}

#[test]
fn get32_reports_the_first_missing_byte() {
    assert_eq!(
        get32(2, BYTES),
        Err(DnsPacketParseError::OutOfBounds {
            index: 5,
            length: 5
        })
    );
    assert_eq!(
        get32(9, BYTES),
        Err(DnsPacketParseError::OutOfBounds {
            index: 9,
            length: 5
        })
    );
}
