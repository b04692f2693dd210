use crate::error::DnsPacketParseError;
use crate::header::{spec_decode_header, Header, Opcode, QueryResponse};
use crate::message::{spec_decode, spec_questions, spec_record_preambles, DnsPacketView};
use crate::name::{spec_encoded_length, spec_read_name, JUMP_LIMIT};
use crate::query::{
    encode_labels, label_fault, query_header, query_trailer, spec_query, split_labels, DOT,
};
use crate::question::{
    label_chars, spec_join, spec_question, Class, QuestionView, RecordPreambleView, RecordType,
};
use crate::reader::spec_get16;
use vstd::prelude::*;

verus! {

/// The header that a built query carries: identifier 0, a query that
/// desires recursion, one question and nothing else.
pub open spec fn query_header_fields() -> Header {
    Header {
        packet_identifier: 0,
        query_response: QueryResponse::Query,
        operation_code: Opcode::Query,
        authoritative_answer: false,
        truncated_message: false,
        recursion_desired: true,
        recursion_available: false,
        response_code: Ok(()),
        question_count: 1,
        answer_count: 0,
        authority_count: 0,
        additional_count: 0,
    }
}

/// The encoded labels, where they have no fault.
pub open spec fn encoded(labels: Seq<Seq<u8>>) -> Seq<u8> {
    match encode_labels(labels) {
        Ok(bytes) => bytes,
        Err(_) => Seq::empty(),
    }
}

/// The query for a host name, where its labels have no fault.
pub open spec fn built(host_name: Seq<u8>) -> Seq<u8> {
    match spec_query(host_name) {
        Ok(bytes) => bytes,
        Err(_) => Seq::empty(),
    }
}

/// The labels of a name are encoded first label first: its length, its
/// bytes, then the labels that follow.
pub proof fn lemma_encode_front(first: Seq<u8>, rest: Seq<Seq<u8>>)
    ensures
        encode_labels(seq![first] + rest) == match label_fault(first) {
            Some(fault) => Err(fault),
            None => match encode_labels(rest) {
                Err(fault) => Err(fault),
                Ok(tail) => Ok(seq![first.len() as u8] + first + tail),
            },
        },
    decreases rest.len(),
{
    let all = seq![first] + rest;
    if rest.len() == 0 {
        assert(all.drop_last() =~= Seq::<Seq<u8>>::empty());
        assert(all.last() == first);
        assert(encode_labels(all.drop_last()) == Ok::<Seq<u8>, crate::query::QueryFault>(
            Seq::empty(),
        ));
        assert(Seq::<u8>::empty() + seq![first.len() as u8] + first =~= seq![first.len() as u8]
            + first + Seq::<u8>::empty());
    } else {
        assert(all.drop_last() =~= seq![first] + rest.drop_last());
        assert(all.last() == rest.last());
        lemma_encode_front(first, rest.drop_last());
        if label_fault(first) is None {
            if let Ok(front) = encode_labels(rest.drop_last()) {
                let last = rest.last();
                assert(seq![first.len() as u8] + first + front + seq![last.len() as u8] + last
                    =~= seq![first.len() as u8] + first + (front + seq![last.len() as u8] + last));
            }
        }
    }
}

/// Labels that stand encoded in a message, with the byte 0 behind them,
/// are read back as they were, and take their encoded length and one byte.
pub proof fn lemma_read_encoded(
    packet: Seq<u8>,
    position: int,
    labels: Seq<Seq<u8>>,
    jump_counter: int,
)
    requires
        0 <= position,
        0 <= jump_counter <= JUMP_LIMIT,
        encode_labels(labels) is Ok,
        position + encoded(labels).len() < packet.len(),
        packet.subrange(position, position + encoded(labels).len())
            == encoded(labels),
        packet[position + encoded(labels).len()] == 0,
    ensures
        spec_read_name(packet, position, jump_counter) == Ok::<Seq<Seq<u8>>, DnsPacketParseError>(
            labels,
        ),
        spec_encoded_length(packet, position) == encoded(labels).len() + 1,
    decreases labels.len(),
{
    let body = encoded(labels);
    if labels.len() == 0 {
        assert(labels =~= Seq::<Seq<u8>>::empty());
    } else {
        let first = labels[0];
        let rest = labels.skip(1);
        assert(labels =~= seq![first] + rest);
        lemma_encode_front(first, rest);
        let tail = encoded(rest);
        let length: int = first.len() as int;
        assert(body == seq![length as u8] + first + tail);
        let inside = packet.subrange(position, position + body.len());
        assert(packet[position] == inside[0]);
        assert(packet[position] == length as u8);
        let next: int = position + 1 + length;
        assert(packet.subrange(position + 1, next) =~= first) by {
            assert forall|i: int| 0 <= i < length implies packet[position + 1 + i] == first[i] by {
                assert(packet[position + 1 + i] == inside[1 + i]);
            }
        }
        assert(packet.subrange(next, next + tail.len()) =~= tail) by {
            assert forall|i: int| 0 <= i < tail.len() implies packet[next + i] == tail[i] by {
                assert(packet[next + i] == inside[1 + length + i]);
            }
        }
        lemma_read_encoded(packet, next, rest, jump_counter);
    }
}

/// The labels of a name, joined with dots, are the name.
pub proof fn lemma_join_split(name: Seq<u8>)
    ensures
        spec_join(split_labels(name)) == label_chars(name),
        split_labels(name).len() >= 1,
    decreases name.len(),
{
    if name.len() == 0 {
        assert(label_chars(Seq::<u8>::empty()) =~= label_chars(name));
        assert(spec_join(split_labels(name)) =~= label_chars(name));
    } else {
        let shorter = name.drop_last();
        lemma_join_split(shorter);
        let front = split_labels(shorter);
        let byte = name.last();
        if byte == DOT {
            let all = front.push(Seq::empty());
            assert(all.drop_last() =~= front);
            assert(all.last() =~= Seq::<u8>::empty());
            assert(label_chars(shorter) + seq!['.'] + label_chars(Seq::<u8>::empty())
                =~= label_chars(name));
        } else {
            let grown = front.last().push(byte);
            let all = front.drop_last().push(grown);
            assert(all.last() == grown);
            assert(label_chars(grown) =~= label_chars(front.last()).push(byte as char));
            if front.len() == 1 {
                assert(spec_join(all) == label_chars(grown));
                assert(label_chars(shorter).push(byte as char) =~= label_chars(name));
            } else {
                assert(all.drop_last() =~= front.drop_last());
                assert(spec_join(front.drop_last()) + seq!['.'] + label_chars(grown) =~= (
                spec_join(front.drop_last()) + seq!['.'] + label_chars(front.last())).push(
                    byte as char,
                ));
                assert(label_chars(shorter).push(byte as char) =~= label_chars(name));
            }
        }
    }
}

/// A query that was built decodes to a message with the header of a query,
/// no answers, and one question: for the address of the host that the
/// query was built for, in the class of the internet.
pub proof fn lemma_query_round_trip(host_name: Seq<u8>)
    requires
        spec_query(host_name) is Ok,
    ensures
        spec_decode(built(host_name)) == Ok::<DnsPacketView, DnsPacketParseError>(
            (DnsPacketView {
                header: query_header_fields(),
                questions: seq![
                    (QuestionView {
                        name: label_chars(host_name),
                        record_type: RecordType::AddressRecord,
                        class: Class::Internet,
                    }),
                ],
                answers: Seq::empty(),
            }),
        ),
{
    let labels = split_labels(host_name);
    let body = encoded(labels);
    let packet = built(host_name);
    assert(packet == query_header() + body + query_trailer());
    assert(packet.len() == 12 + body.len() + 5);
    assert(packet.subrange(12, 12 + body.len() as int) =~= body);
    assert forall|i: int| 0 <= i < 12 implies packet[i] == query_header()[i] by {}
    assert forall|i: int| 0 <= i < 5 implies packet[12 + body.len() + i] == query_trailer()[i] by {}
    lemma_read_encoded(packet, 12, labels, 0);
    lemma_join_split(host_name);
    let fields: int = 12 + body.len() as int + 1;
    assert(packet[fields] == query_trailer()[1]);
    assert(packet[fields + 1] == query_trailer()[2]);
    assert(packet[fields + 2] == query_trailer()[3]);
    assert(packet[fields + 3] == query_trailer()[4]);
    assert(spec_get16(fields, packet) == Ok::<u16, DnsPacketParseError>(1));
    assert(spec_get16(fields + 2, packet) == Ok::<u16, DnsPacketParseError>(1));
    let question = QuestionView {
        name: label_chars(host_name),
        record_type: RecordType::AddressRecord,
        class: Class::Internet,
    };
    assert(spec_question(packet, 12) == Ok::<(QuestionView, int), DnsPacketParseError>(
        (question, fields + 4),
    ));
    assert(spec_questions(packet, fields + 4, 0) == Ok::<
        (Seq<QuestionView>, int),
        DnsPacketParseError,
    >((Seq::empty(), fields + 4)));
    assert(seq![question] + Seq::<QuestionView>::empty() =~= seq![question]);
    assert(spec_questions(packet, 12, 1) == Ok::<(Seq<QuestionView>, int), DnsPacketParseError>(
        (seq![question], fields + 4),
    ));
    assert(spec_record_preambles(packet, fields + 4, 0) == Ok::<
        (Seq<RecordPreambleView>, int),
        DnsPacketParseError,
    >((Seq::empty(), fields + 4)));
    assert(packet[0] == 0 && packet[1] == 0 && packet[2] == 1 && packet[3] == 0 && packet[4] == 0
        && packet[5] == 1 && packet[6] == 0 && packet[7] == 0 && packet[8] == 0 && packet[9] == 0
        && packet[10] == 0 && packet[11] == 0);
    assert(spec_decode_header(packet) == Ok::<Header, DnsPacketParseError>(query_header_fields()));
}

} // verus!
