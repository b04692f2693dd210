use dns_packet::error::DnsPacketParseError;
use dns_packet::header::{decode_header, Opcode, QueryResponse, RCode};

fn header_with_flags(first: u8, second: u8) -> Vec<u8> {
    vec![0x12, 0x34, first, second, 0, 1, 0, 2, 0, 3, 0, 4]
}

#[test]
fn header_fields() {
    let header = decode_header(&header_with_flags(0b1010_1101, 0b1000_0011)).unwrap();
    assert_eq!(header.packet_identifier, 0x1234);
    assert_eq!(header.query_response, QueryResponse::Response);
    assert_eq!(header.operation_code, Opcode::Update);
    assert!(header.authoritative_answer);
    assert!(!header.truncated_message);
    assert!(header.recursion_desired);
    assert!(header.recursion_available);
    assert_eq!(header.response_code, Err(RCode::NXDomain));
    assert_eq!(header.question_count, 1);
    assert_eq!(header.answer_count, 2);
    assert_eq!(header.authority_count, 3);
    assert_eq!(header.additional_count, 4);
}

#[test]
fn header_of_an_empty_buffer() {
    assert_eq!(
        decode_header(&[]),
        Err(DnsPacketParseError::OutOfBounds {
            index: 0,
            length: 0
        })
    );
}

#[test]
fn header_of_a_short_buffer_fails_at_its_length() {
    for length in 0..12usize {
        let bytes = vec![0xffu8; length];
        assert_eq!(
            decode_header(&bytes),
            Err(DnsPacketParseError::OutOfBounds {
                index: length,
                length
            })
        );
    }
}

#[test]
fn header_ignores_what_follows() {
    let mut bytes = header_with_flags(0, 0);
    let alone = decode_header(&bytes).unwrap();
    bytes.extend_from_slice(&[9, 9, 9]);
    assert_eq!(decode_header(&bytes).unwrap(), alone);
}

#[test]
fn role_is_bit_seven() {
    for byte in 0..=255u8 {
        let header = decode_header(&header_with_flags(byte, 0)).unwrap();
        let expected = if byte & 0x80 != 0 {
            QueryResponse::Response
        } else {
            QueryResponse::Query
        };
        assert_eq!(header.query_response, expected);
        assert_eq!(header.authoritative_answer, byte & 4 != 0);
        assert_eq!(header.truncated_message, byte & 2 != 0);
        assert_eq!(header.recursion_desired, byte & 1 != 0);
    }
}

#[test]
fn operation_code_table() {
    let table = [
        Opcode::Query,
        Opcode::IQuery,
        Opcode::Status,
        Opcode::Unassigned,
        Opcode::Notify,
        Opcode::Update,
        Opcode::DNSStatefulOperations,
        Opcode::Unassigned,
        Opcode::Unassigned,
        Opcode::Unassigned,
        Opcode::Unassigned,
        Opcode::Unassigned,
        Opcode::Unassigned,
        Opcode::Unassigned,
        Opcode::Unassigned,
        Opcode::Unassigned,
    ];
    for byte in 0..=255u8 {
        let header = decode_header(&header_with_flags(byte, 0)).unwrap();
        assert_eq!(header.operation_code, table[usize::from((byte >> 3) & 15)]);
    }
    for number in 0..16u8 {
        assert_eq!(Opcode::from_number(number), table[usize::from(number)]);
    }
    assert_eq!(Opcode::from_number(200), Opcode::Unassigned);
}

#[test]
fn response_status_table() {
    let table = [
        Ok(()),
        Err(RCode::FormErr),
        Err(RCode::ServFail),
        Err(RCode::NXDomain),
        Err(RCode::NotImp),
        Err(RCode::Refused),
        Err(RCode::YXDomain),
        Err(RCode::YXRRSet),
        Err(RCode::NXRRSet),
        Err(RCode::NotAuth),
        Err(RCode::NotZone),
        Err(RCode::DSOTYPENI),
        Err(RCode::Unassigned),
        Err(RCode::Unassigned),
        Err(RCode::Unassigned),
        Err(RCode::Unassigned),
    ];
    for byte in 0..=255u8 {
        let header = decode_header(&header_with_flags(0, byte)).unwrap();
        assert_eq!(header.response_code, table[usize::from(byte & 15)]);
        assert_eq!(header.recursion_available, byte & 0x80 != 0);
    }
    for a in 0..12usize {
        for b in 0..12usize {
            assert_eq!(table[a] == table[b], a == b);
        }
    }
    for number in 0..16u8 {
        assert_eq!(RCode::from_number(number), table[usize::from(number)]);
    }
}
