use crate::error::DnsPacketParseError;
use crate::header::{
    decode_header, spec_decode_header, Header, Opcode, QueryResponse, RCode, HEADER_LENGTH,
};
use crate::name::MAX_PACKET_LENGTH;
use crate::question::{
    spec_question, spec_record_preamble, Question, QuestionView, RecordPreamble,
    RecordPreambleView,
};
use vstd::prelude::*;

verus! {

/// A decoded message: the fields of its header, its questions, and the
/// preambles of its answer records.
#[derive(Debug)]
pub struct DnsPacket {
    pub packet_identifier: u16,
    pub query_response: QueryResponse,
    pub operation_code: Opcode,
    pub authoritative_answer: bool,
    pub truncated_message: bool,
    pub recursion_desired: bool,
    pub recursion_available: bool,
    pub response_code: Result<(), RCode>,
    pub question_count: u16,
    pub answer_count: u16,
    pub authority_count: u16,
    pub additional_count: u16,
    pub questions: Vec<Question>,
    pub answers: Vec<RecordPreamble>,
}

/// A message as a value: its header, and its questions and answer
/// preambles as sequences.
pub struct DnsPacketView {
    pub header: Header,
    pub questions: Seq<QuestionView>,
    pub answers: Seq<RecordPreambleView>,
}

/// The questions, each as a value.
pub open spec fn question_views(questions: Seq<Question>) -> Seq<QuestionView> {
    Seq::new(questions.len(), |i: int| questions[i]@)
}

/// The record preambles, each as a value.
pub open spec fn preamble_views(preambles: Seq<RecordPreamble>) -> Seq<RecordPreambleView> {
    Seq::new(preambles.len(), |i: int| preambles[i]@)
}

impl DnsPacket {
    /// The fields of the header.
    pub open spec fn header(&self) -> Header {
        Header {
            packet_identifier: self.packet_identifier,
            query_response: self.query_response,
            operation_code: self.operation_code,
            authoritative_answer: self.authoritative_answer,
            truncated_message: self.truncated_message,
            recursion_desired: self.recursion_desired,
            recursion_available: self.recursion_available,
            response_code: self.response_code,
            question_count: self.question_count,
            answer_count: self.answer_count,
            authority_count: self.authority_count,
            additional_count: self.additional_count,
        }
    }

    /// The message holds as many questions and answers as its header
    /// counts.
    pub open spec fn wf(&self) -> bool {
        &&& self.questions@.len() == self.question_count
        &&& self.answers@.len() == self.answer_count
    }
}

impl View for DnsPacket {
    type V = DnsPacketView;

    open spec fn view(&self) -> DnsPacketView {
        DnsPacketView {
            header: self.header(),
            questions: question_views(self.questions@),
            answers: preamble_views(self.answers@),
        }
    }
}

/// `count` questions one behind the other from `position`, and the position
/// behind the last.
pub open spec fn spec_questions(packet: Seq<u8>, position: int, count: nat) -> Result<
    (Seq<QuestionView>, int),
    DnsPacketParseError,
>
    decreases count,
{
    if count == 0 {
        Ok((Seq::empty(), position))
    } else {
        match spec_question(packet, position) {
            Err(e) => Err(e),
            Ok((question, next)) => match spec_questions(packet, next, (count - 1) as nat) {
                Err(e) => Err(e),
                Ok((rest, end)) => Ok((seq![question] + rest, end)),
            },
        }
    }
}

/// `count` record preambles one behind the other from `position`, and the
/// position behind the last.
pub open spec fn spec_record_preambles(packet: Seq<u8>, position: int, count: nat) -> Result<
    (Seq<RecordPreambleView>, int),
    DnsPacketParseError,
>
    decreases count,
{
    if count == 0 {
        Ok((Seq::empty(), position))
    } else {
        match spec_record_preamble(packet, position) {
            Err(e) => Err(e),
            Ok((preamble, next)) => match spec_record_preambles(packet, next, (count - 1) as nat) {
                Err(e) => Err(e),
                Ok((rest, end)) => Ok((seq![preamble] + rest, end)),
            },
        }
    }
}

/// The questions in `front` before those that `rest` holds.
pub open spec fn after_questions(
    front: Seq<QuestionView>,
    rest: Result<(Seq<QuestionView>, int), DnsPacketParseError>,
) -> Result<(Seq<QuestionView>, int), DnsPacketParseError> {
    match rest {
        Ok((questions, end)) => Ok((front + questions, end)),
        Err(e) => Err(e),
    }
}

/// The record preambles in `front` before those that `rest` holds.
pub open spec fn after_preambles(
    front: Seq<RecordPreambleView>,
    rest: Result<(Seq<RecordPreambleView>, int), DnsPacketParseError>,
) -> Result<(Seq<RecordPreambleView>, int), DnsPacketParseError> {
    match rest {
        Ok((preambles, end)) => Ok((front + preambles, end)),
        Err(e) => Err(e),
    }
}

/// The message that `packet` spells: its header, then as many questions as
/// the header counts, then as many record preambles as it counts answers,
/// one behind the other from the end of the header. The first failure is
/// the failure of the whole.
pub open spec fn spec_decode(packet: Seq<u8>) -> Result<DnsPacketView, DnsPacketParseError> {
    match spec_decode_header(packet) {
        Err(e) => Err(e),
        Ok(header) => match spec_questions(
            packet,
            HEADER_LENGTH as int,
            header.question_count as nat,
        ) {
            Err(e) => Err(e),
            Ok((questions, next)) => match spec_record_preambles(
                packet,
                next,
                header.answer_count as nat,
            ) {
                Err(e) => Err(e),
                Ok((answers, _)) => Ok(DnsPacketView { header, questions, answers }),
            },
        },
    }
}

/// As many questions are decoded as were asked for.
pub proof fn lemma_questions_count(packet: Seq<u8>, position: int, count: nat)
    ensures
        spec_questions(packet, position, count) matches Ok((questions, _)) ==> questions.len()
            == count,
    decreases count,
{
    if count > 0 {
        if let Ok((_, next)) = spec_question(packet, position) {
            lemma_questions_count(packet, next, (count - 1) as nat);
        }
    }
}

/// As many record preambles are decoded as were asked for.
pub proof fn lemma_record_preambles_count(packet: Seq<u8>, position: int, count: nat)
    ensures
        spec_record_preambles(packet, position, count) matches Ok((preambles, _))
            ==> preambles.len() == count,
    decreases count,
{
    if count > 0 {
        if let Ok((_, next)) = spec_record_preamble(packet, position) {
            lemma_record_preambles_count(packet, next, (count - 1) as nat);
        }
    }
}

/// A decoded message holds exactly as many questions and answer preambles
/// as its header counts.
pub proof fn lemma_decode_counts(packet: Seq<u8>)
    ensures
        spec_decode(packet) matches Ok(message) ==> message.questions.len()
            == message.header.question_count && message.answers.len()
            == message.header.answer_count,
{
    if let Ok(header) = spec_decode_header(packet) {
        lemma_questions_count(packet, HEADER_LENGTH as int, header.question_count as nat);
        if let Ok((_, next)) = spec_questions(
            packet,
            HEADER_LENGTH as int,
            header.question_count as nat,
        ) {
            lemma_record_preambles_count(packet, next, header.answer_count as nat);
        }
    }
}

impl DnsPacket {
    /// Decodes a message. Nothing is returned of a message that fails in
    /// any part.
    pub fn try_from(value: &[u8]) -> (r: Result<DnsPacket, DnsPacketParseError>)
        requires
            value@.len() <= MAX_PACKET_LENGTH,
        ensures
            match spec_decode(value@) {
                Err(e) => r == Err::<DnsPacket, DnsPacketParseError>(e),
                Ok(message) => r is Ok && r.unwrap()@ == message && r.unwrap().wf(),
            },
            value@.len() < HEADER_LENGTH ==> r == Err::<DnsPacket, DnsPacketParseError>(
                (DnsPacketParseError::OutOfBounds {
                    index: value@.len() as usize,
                    length: value@.len() as usize,
                }),
            ),
    {
        let header = decode_header(value)?;
        let mut position: u16 = HEADER_LENGTH as u16;
        let mut questions: Vec<Question> = Vec::with_capacity(header.question_count as usize);
        let mut i: u16 = 0;
        proof {
            assert(question_views(questions@) =~= Seq::<QuestionView>::empty());
            if let Ok((all, _)) = spec_questions(value@, 12, header.question_count as nat) {
                assert(Seq::<QuestionView>::empty() + all =~= all);
            }
        }
        while i < header.question_count
            invariant
                value@.len() <= MAX_PACKET_LENGTH,
                i <= header.question_count,
                questions@.len() == i,
                spec_decode_header(value@) == Ok::<Header, DnsPacketParseError>(header),
                after_questions(
                    question_views(questions@),
                    spec_questions(value@, position as int, (header.question_count - i) as nat),
                ) == spec_questions(value@, 12, header.question_count as nat),
            decreases header.question_count - i,
        {
            let ghost before = question_views(questions@);
            let question = Question::try_from(value, &mut position)?;
            questions.push(question);
            proof {
                assert(question_views(questions@) =~= before.push(question@));
                let rest = spec_questions(
                    value@,
                    position as int,
                    (header.question_count - i - 1) as nat,
                );
                if let Ok((tail, _)) = rest {
                    assert(before + (seq![question@] + tail) =~= question_views(questions@) + tail);
                }
            }
            i += 1;
        }
        proof {
            assert(question_views(questions@) + Seq::<QuestionView>::empty() =~= question_views(
                questions@,
            ));
        }
        let ghost answers_start = position;
        let mut answers: Vec<RecordPreamble> = Vec::new();
        let mut j: u16 = 0;
        proof {
            assert(preamble_views(answers@) =~= Seq::<RecordPreambleView>::empty());
            if let Ok((all, _)) = spec_record_preambles(
                value@,
                position as int,
                header.answer_count as nat,
            ) {
                assert(Seq::<RecordPreambleView>::empty() + all =~= all);
            }
        }
        while j < header.answer_count
            invariant
                value@.len() <= MAX_PACKET_LENGTH,
                j <= header.answer_count,
                answers@.len() == j,
                spec_decode_header(value@) == Ok::<Header, DnsPacketParseError>(header),
                spec_questions(value@, 12, header.question_count as nat) == Ok::<
                    (Seq<QuestionView>, int),
                    DnsPacketParseError,
                >((question_views(questions@), answers_start as int)),
                after_preambles(
                    preamble_views(answers@),
                    spec_record_preambles(
                        value@,
                        position as int,
                        (header.answer_count - j) as nat,
                    ),
                ) == spec_record_preambles(
                    value@,
                    answers_start as int,
                    header.answer_count as nat,
                ),
            decreases header.answer_count - j,
        {
            let ghost before = preamble_views(answers@);
            let preamble = RecordPreamble::try_from(value, &mut position)?;
            answers.push(preamble);
            proof {
                assert(preamble_views(answers@) =~= before.push(preamble@));
                let rest = spec_record_preambles(
                    value@,
                    position as int,
                    (header.answer_count - j - 1) as nat,
                );
                if let Ok((tail, _)) = rest {
                    assert(before + (seq![preamble@] + tail) =~= preamble_views(answers@) + tail);
                }
            }
            j += 1;
        }
        proof {
            assert(preamble_views(answers@) + Seq::<RecordPreambleView>::empty()
                =~= preamble_views(answers@));
        }
        Ok(
            DnsPacket {
                packet_identifier: header.packet_identifier,
                query_response: header.query_response,
                operation_code: header.operation_code,
                authoritative_answer: header.authoritative_answer,
                truncated_message: header.truncated_message,
                recursion_desired: header.recursion_desired,
                recursion_available: header.recursion_available,
                response_code: header.response_code,
                question_count: header.question_count,
                answer_count: header.answer_count,
                authority_count: header.authority_count,
                additional_count: header.additional_count,
                questions,
                answers,
            },
        )
    }
}

} // verus!
