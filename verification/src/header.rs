use crate::error::DnsPacketParseError;
use crate::reader::{be16, get16, get8, out_of_bounds};
use vstd::prelude::*;

verus! {

/// Whether a message asks or answers.
#[derive(Debug, Clone, Copy, PartialEq, Eq, Structural)]
pub enum QueryResponse {
    Query,
    Response,
}

/// The kind of query that a message carries.
#[derive(Debug, Clone, Copy, PartialEq, Eq, Structural)]
pub enum Opcode {
    Query,
    IQuery,
    Status,
    Notify,
    Update,
    DNSStatefulOperations,
    /// Any number that has no meaning assigned.
    Unassigned,
}

/// Why a server did not answer as asked.
#[derive(Debug, Clone, Copy, PartialEq, Eq, Structural)]
pub enum RCode {
    FormErr,
    ServFail,
    NXDomain,
    NotImp,
    Refused,
    YXDomain,
    YXRRSet,
    NXRRSet,
    NotAuth,
    NotZone,
    DSOTYPENI,
    /// Any number that has no meaning assigned.
    Unassigned,
}

/// The fixed twelve bytes that every message starts with.
#[derive(Debug, Clone, Copy, PartialEq, Eq)]
pub struct Header {
    pub packet_identifier: u16,
    pub query_response: QueryResponse,
    pub operation_code: Opcode,
    pub authoritative_answer: bool,
    pub truncated_message: bool,
    pub recursion_desired: bool,
    pub recursion_available: bool,
    pub response_code: Result<(), RCode>,
    pub question_count: u16,
    pub answer_count: u16,
    pub authority_count: u16,
    pub additional_count: u16,
}

/// The length of the header in bytes.
pub const HEADER_LENGTH: usize = 12;

/// The four-bit operation code in the first flag byte: bits 3 to 6.
pub open spec fn opcode_bits(byte: u8) -> int {
    (byte as int / 8) % 16
}

/// The four-bit response status in the second flag byte: bits 0 to 3.
pub open spec fn rcode_bits(byte: u8) -> int {
    byte as int % 16
}

/// The operation code that a number stands for.
pub open spec fn spec_opcode(number: int) -> Opcode {
    if number == 0 {
        Opcode::Query
    } else if number == 1 {
        Opcode::IQuery
    } else if number == 2 {
        Opcode::Status
    } else if number == 4 {
        Opcode::Notify
    } else if number == 5 {
        Opcode::Update
    } else if number == 6 {
        Opcode::DNSStatefulOperations
    } else {
        Opcode::Unassigned
    }
}

/// The response status that a number stands for: success for 0, and an
/// error code for every other number.
pub open spec fn spec_response_code(number: int) -> Result<(), RCode> {
    if number == 0 {
        Ok(())
    } else if number == 1 {
        Err(RCode::FormErr)
    } else if number == 2 {
        Err(RCode::ServFail)
    } else if number == 3 {
        Err(RCode::NXDomain)
    } else if number == 4 {
        Err(RCode::NotImp)
    } else if number == 5 {
        Err(RCode::Refused)
    } else if number == 6 {
        Err(RCode::YXDomain)
    } else if number == 7 {
        Err(RCode::YXRRSet)
    } else if number == 8 {
        Err(RCode::NXRRSet)
    } else if number == 9 {
        Err(RCode::NotAuth)
    } else if number == 10 {
        Err(RCode::NotZone)
    } else if number == 11 {
        Err(RCode::DSOTYPENI)
    } else {
        Err(RCode::Unassigned)
    }
}

/// The number that is assigned to a response status, where one is.
pub open spec fn spec_response_number(status: Result<(), RCode>) -> Option<int> {
    match status {
        Ok(()) => Some(0),
        Err(RCode::FormErr) => Some(1),
        Err(RCode::ServFail) => Some(2),
        Err(RCode::NXDomain) => Some(3),
        Err(RCode::NotImp) => Some(4),
        Err(RCode::Refused) => Some(5),
        Err(RCode::YXDomain) => Some(6),
        Err(RCode::YXRRSet) => Some(7),
        Err(RCode::NXRRSet) => Some(8),
        Err(RCode::NotAuth) => Some(9),
        Err(RCode::NotZone) => Some(10),
        Err(RCode::DSOTYPENI) => Some(11),
        Err(RCode::Unassigned) => None,
    }
}

/// The header that the first twelve bytes of `value` spell.
pub open spec fn spec_header(value: Seq<u8>) -> Header
    recommends
        value.len() >= 12,
{
    Header {
        packet_identifier: be16(value[0], value[1]),
        query_response: if value[2] >= 128 {
            QueryResponse::Response
        } else {
            QueryResponse::Query
        },
        operation_code: spec_opcode(opcode_bits(value[2])),
        authoritative_answer: (value[2] as int / 4) % 2 == 1,
        truncated_message: (value[2] as int / 2) % 2 == 1,
        recursion_desired: value[2] as int % 2 == 1,
        recursion_available: value[3] >= 128,
        response_code: spec_response_code(rcode_bits(value[3])),
        question_count: be16(value[4], value[5]),
        answer_count: be16(value[6], value[7]),
        authority_count: be16(value[8], value[9]),
        additional_count: be16(value[10], value[11]),
    }
}

/// What decoding the header of `value` gives: the header, or the first byte
/// that is missing.
pub open spec fn spec_decode_header(value: Seq<u8>) -> Result<Header, DnsPacketParseError> {
    if value.len() >= 12 {
        Ok(spec_header(value))
    } else {
        Err(out_of_bounds(value.len() as int, value.len() as int))
    }
}

impl Opcode {
    /// The operation code for a four-bit number; numbers without a meaning
    /// give `Unassigned`.
    pub fn from_number(number: u8) -> (r: Opcode)
        ensures
            r == spec_opcode(number as int),
            (number == 3 || number >= 7) ==> r == Opcode::Unassigned,
    {
        match number {
            0 => Opcode::Query,
            1 => Opcode::IQuery,
            2 => Opcode::Status,
            4 => Opcode::Notify,
            5 => Opcode::Update,
            6 => Opcode::DNSStatefulOperations,
            _ => Opcode::Unassigned,
        }
    }
}

impl RCode {
    /// The response status for a four-bit number: success for 0, the error
    /// code with that number for 1 to 11, and `Unassigned` above.
    pub fn from_number(number: u8) -> (r: Result<(), RCode>)
        ensures
            r == spec_response_code(number as int),
            number <= 11 ==> spec_response_number(r) == Some(number as int),
            number >= 12 ==> r == Err::<(), RCode>(RCode::Unassigned),
    {
        match number {
            0 => Ok(()),
            1 => Err(RCode::FormErr),
            2 => Err(RCode::ServFail),
            3 => Err(RCode::NXDomain),
            4 => Err(RCode::NotImp),
            5 => Err(RCode::Refused),
            6 => Err(RCode::YXDomain),
            7 => Err(RCode::YXRRSet),
            8 => Err(RCode::NXRRSet),
            9 => Err(RCode::NotAuth),
            10 => Err(RCode::NotZone),
            11 => Err(RCode::DSOTYPENI),
            _ => Err(RCode::Unassigned),
        }
    }
}

/// Two numbers up to 11 that stand for the same response status are the
/// same number: the assigned statuses are told apart by their numbers, and
/// each is given back by the number assigned to it.
pub proof fn lemma_response_code_one_to_one(a: int, b: int)
    requires
        0 <= a <= 11,
        0 <= b <= 11,
    ensures
        spec_response_number(spec_response_code(a)) == Some(a),
        spec_response_code(a) == spec_response_code(b) ==> a == b,
        a < b ==> spec_response_number(spec_response_code(a)).unwrap()
            < spec_response_number(spec_response_code(b)).unwrap(),
{
}

/// Every four-bit number above 11 stands for the unassigned status.
pub proof fn lemma_response_code_unassigned(a: int)
    requires
        12 <= a <= 15,
    ensures
        spec_response_code(a) == Err::<(), RCode>(RCode::Unassigned),
{
}

/// The operation code of a flag byte is `Unassigned` exactly when bits 3 to
/// 6 spell 3 or a number from 7 to 15.
pub proof fn lemma_opcode_unassigned(byte: u8)
    ensures
        0 <= opcode_bits(byte) <= 15,
        spec_opcode(opcode_bits(byte)) == Opcode::Unassigned <==> (opcode_bits(byte) == 3
            || 7 <= opcode_bits(byte) <= 15),
{
}

/// The fields of the flag bytes, which the header is stated by in
/// numbers, are the bits that the message format gives them: bit 7 of the
/// first byte for the role, its bits 3 to 6 for the operation code, its
/// bits 2, 1 and 0 for the flags, and of the second byte bit 7 for the last
/// flag and bits 0 to 3 for the response status.
pub proof fn lemma_flag_bits(byte: u8)
    ensures
        byte >= 128 <==> byte & 0x80 == 0x80,
        opcode_bits(byte) == (byte >> 3) & 0xf,
        (byte as int / 4) % 2 == 1 <==> byte & 0x04 == 0x04,
        (byte as int / 2) % 2 == 1 <==> byte & 0x02 == 0x02,
        byte as int % 2 == 1 <==> byte & 0x01 == 0x01,
        rcode_bits(byte) == byte & 0xf,
{
    assert(byte >= 128 <==> byte & 0x80 == 0x80) by (bit_vector);
    assert((byte / 8) % 16 == (byte >> 3) & 0xf) by (bit_vector);
    assert((byte / 4) % 2 == 1 <==> byte & 0x04 == 0x04) by (bit_vector);
    assert((byte / 2) % 2 == 1 <==> byte & 0x02 == 0x02) by (bit_vector);
    assert(byte % 2 == 1 <==> byte & 0x01 == 0x01) by (bit_vector);
    assert(byte % 16 == byte & 0xf) by (bit_vector);
}

/// Decodes the header of a message. A buffer of fewer than twelve bytes
/// fails at its first missing byte, which is its own length.
pub fn decode_header(value: &[u8]) -> (r: Result<Header, DnsPacketParseError>)
    ensures
        r == spec_decode_header(value@),
        value@.len() < 12 ==> r == Err::<Header, DnsPacketParseError>(
            (DnsPacketParseError::OutOfBounds { index: value@.len() as usize, length: value@.len() as usize }),
        ),
        value@.len() >= 12 ==> r is Ok && (r.unwrap().query_response == QueryResponse::Response
            <==> value@[2] & 0x80 == 0x80) && r.unwrap().operation_code == spec_opcode(
            ((value@[2] >> 3) & 0xf) as int,
        ),
{
    let packet_identifier: u16 = get16(0, value)?;
    let flags: u8 = get8(2, value)?;
    let status: u8 = get8(3, value)?;
    let question_count: u16 = get16(4, value)?;
    let answer_count: u16 = get16(6, value)?;
    let authority_count: u16 = get16(8, value)?;
    let additional_count: u16 = get16(10, value)?;
    proof {
        lemma_flag_bits(flags);
        assert((flags >> 7) == 1 <==> flags >= 128) by (bit_vector);
        assert((status >> 7) == 1 <==> status >= 128) by (bit_vector);
        assert(((flags >> 3) & 0b1111) == (flags / 8) % 16) by (bit_vector);
        assert(((flags >> 2) & 1) == (flags / 4) % 2) by (bit_vector);
        assert(((flags >> 1) & 1) == (flags / 2) % 2) by (bit_vector);
        assert((flags & 1) == flags % 2) by (bit_vector);
        assert((status & 0b1111) == status % 16) by (bit_vector);
    }
    let query_response = if flags >> 7 == 1 {
        QueryResponse::Response
    } else {
        QueryResponse::Query
    };
    Ok(
        Header {
            packet_identifier,
            query_response,
            operation_code: Opcode::from_number((flags >> 3) & 0b1111),
            authoritative_answer: (flags >> 2) & 1 == 1,
            truncated_message: (flags >> 1) & 1 == 1,
            recursion_desired: flags & 1 == 1,
            recursion_available: status >> 7 == 1,
            response_code: RCode::from_number(status & 0b1111),
            question_count,
            answer_count,
            authority_count,
            additional_count,
        },
    )
}

} // verus!
