use crate::error::DnsPacketParseError;
use crate::name::{
    labels_view, lemma_encoded_length_bounds, spec_encoded_length, spec_read_name,
    LabelSequenceIterator, MAX_PACKET_LENGTH,
};
use crate::reader::{get16, get32, spec_get16, spec_get32};
use vstd::prelude::*;

verus! {

/// The kind of record that a question asks for.
#[derive(Debug, Clone, Copy, PartialEq, Eq, Structural)]
pub enum RecordType {
    AddressRecord,
    Other,
}

/// The class of record that a question asks for.
#[derive(Debug, Clone, Copy, PartialEq, Eq, Structural)]
pub enum Class {
    Internet,
    Other,
}

/// One question of a message.
#[derive(Debug, PartialEq, Eq)]
pub struct Question {
    pub name: String,
    pub record_type: RecordType,
    pub class: Class,
}

/// A question, with its name as a sequence of characters.
pub struct QuestionView {
    pub name: Seq<char>,
    pub record_type: RecordType,
    pub class: Class,
}

impl View for Question {
    type V = QuestionView;

    open spec fn view(&self) -> QuestionView {
        QuestionView { name: self.name@, record_type: self.record_type, class: self.class }
    }
}

/// What every record starts with: the fields of a question, and the
/// number of seconds for which the record may be kept.
#[derive(Debug, PartialEq, Eq)]
pub struct RecordPreamble {
    pub question: Question,
    pub time_to_live: u32,
}

/// A record preamble, with its name as a sequence of characters.
pub struct RecordPreambleView {
    pub question: QuestionView,
    pub time_to_live: u32,
}

impl View for RecordPreamble {
    type V = RecordPreambleView;

    open spec fn view(&self) -> RecordPreambleView {
        RecordPreambleView { question: self.question@, time_to_live: self.time_to_live }
    }
}

/// The characters of a label: each byte is the character with that number.
pub open spec fn label_chars(label: Seq<u8>) -> Seq<char> {
    Seq::new(label.len(), |i: int| label[i] as char)
}

/// The labels written one after the other, with a dot between each two.
pub open spec fn spec_join(labels: Seq<Seq<u8>>) -> Seq<char>
    decreases labels.len(),
{
    if labels.len() == 0 {
        Seq::empty()
    } else if labels.len() == 1 {
        label_chars(labels[0])
    } else {
        spec_join(labels.drop_last()) + seq!['.'] + label_chars(labels.last())
    }
}

/// The record type that a number stands for.
pub open spec fn spec_record_type(number: u16) -> RecordType {
    if number == 1 {
        RecordType::AddressRecord
    } else {
        RecordType::Other
    }
}

/// The class that a number stands for.
pub open spec fn spec_class(number: u16) -> Class {
    if number == 1 {
        Class::Internet
    } else {
        Class::Other
    }
}

/// The question that starts at `position`, and the position behind it: its
/// name, which may be compressed, then its type and its class.
pub open spec fn spec_question(packet: Seq<u8>, position: int) -> Result<
    (QuestionView, int),
    DnsPacketParseError,
> {
    match spec_read_name(packet, position, 0) {
        Err(e) => Err(e),
        Ok(labels) => {
            let fields = position + spec_encoded_length(packet, position);
            match spec_get16(fields, packet) {
                Err(e) => Err(e),
                Ok(record_type) => match spec_get16(fields + 2, packet) {
                    Err(e) => Err(e),
                    Ok(class) => Ok(
                        (
                            QuestionView {
                                name: spec_join(labels),
                                record_type: spec_record_type(record_type),
                                class: spec_class(class),
                            },
                            fields + 4,
                        ),
                    ),
                },
            }
        },
    }
}

/// The record preamble that starts at `position`, and the position behind
/// it: the fields of a question, then the time to live.
pub open spec fn spec_record_preamble(packet: Seq<u8>, position: int) -> Result<
    (RecordPreambleView, int),
    DnsPacketParseError,
> {
    match spec_question(packet, position) {
        Err(e) => Err(e),
        Ok((question, fields)) => match spec_get32(fields, packet) {
            Err(e) => Err(e),
            Ok(time_to_live) => Ok((RecordPreambleView { question, time_to_live }, fields + 4)),
        },
    }
}

/// Appends one character to a string, with `String::push` of the standard
/// library: the string afterwards is the string before, followed by `c`.
#[verifier::external_body]
fn push_char(name: &mut String, c: char)
    ensures
        final(name)@ == old(name)@.push(c),
{
    name.push(c);
}

/// Joins labels to a name: a dot between each two, each byte taken as the
/// character with its number.
pub fn join_labels(labels: &Vec<&[u8]>) -> (name: String)
    ensures
        name@ == spec_join(labels_view(labels@)),
{
    let mut name = String::new();
    let mut i: usize = 0;
    proof {
        assert(labels_view(labels@).take(0) =~= Seq::<Seq<u8>>::empty());
    }
    while i < labels.len()
        invariant
            i <= labels.len(),
            name@ == spec_join(labels_view(labels@).take(i as int)),
        decreases labels.len() - i,
    {
        let ghost before = name@;
        if i > 0 {
            push_char(&mut name, '.');
        }
        let ghost front = name@;
        let label: &[u8] = labels[i];
        let mut j: usize = 0;
        while j < label.len()
            invariant
                j <= label.len(),
                name@ == front + label_chars(label@).take(j as int),
            decreases label.len() - j,
        {
            push_char(&mut name, label[j] as char);
            proof {
                assert(label_chars(label@).take(j as int).push(label@[j as int] as char)
                    =~= label_chars(label@).take(j + 1));
            }
            j += 1;
        }
        proof {
            let all = labels_view(labels@);
            assert(label_chars(label@).take(j as int) =~= label_chars(label@));
            assert(all.take(i + 1).drop_last() =~= all.take(i as int));
            assert(all.take(i + 1).last() == label@);
            if i == 0 {
                assert(front + label_chars(label@) =~= label_chars(label@));
            } else {
                assert(before.push('.') =~= before + seq!['.']);
            }
        }
        i += 1;
    }
    proof {
        assert(labels_view(labels@).take(i as int) =~= labels_view(labels@));
    }
    name
}

impl Question {
    /// Decodes the question at the cursor, and moves the cursor behind it.
    /// A failure leaves the cursor where it was.
    pub fn try_from(value: &[u8], position: &mut u16) -> (r: Result<Question, DnsPacketParseError>)
        requires
            value@.len() <= MAX_PACKET_LENGTH,
        ensures
            match spec_question(value@, *old(position) as int) {
                Err(e) => r == Err::<Question, DnsPacketParseError>(e) && *final(position) == *old(
                    position,
                ),
                Ok((question, next)) => r is Ok && r.unwrap()@ == question && *final(position)
                    == next,
            },
    {
        let start: u16 = *position;
        let mut walk = LabelSequenceIterator::new(&mut *position, value);
        let labels = match walk.collect() {
            Ok(labels) => labels,
            Err(e) => {
                return Err(e);
            },
        };
        proof {
            lemma_encoded_length_bounds(value@, start as int, 0);
        }
        let name = join_labels(&labels);
        let fields: usize = *position as usize;
        let record_type = match get16(fields, value) {
            Ok(number) => number,
            Err(e) => {
                *position = start;
                return Err(e);
            },
        };
        let class = match get16(fields + 2, value) {
            Ok(number) => number,
            Err(e) => {
                *position = start;
                return Err(e);
            },
        };
        *position += 4;
        Ok(
            Question {
                name,
                record_type: match record_type {
                    1 => RecordType::AddressRecord,
                    _ => RecordType::Other,
                },
                class: match class {
                    1 => Class::Internet,
                    _ => Class::Other,
                },
            },
        )
    }
}

impl RecordPreamble {
    /// Decodes the record preamble at the cursor, and moves the cursor
    /// behind it. A failure leaves the cursor where it was.
    pub fn try_from(value: &[u8], position: &mut u16) -> (r: Result<
        RecordPreamble,
        DnsPacketParseError,
    >)
        requires
            value@.len() <= MAX_PACKET_LENGTH,
        ensures
            match spec_record_preamble(value@, *old(position) as int) {
                Err(e) => r == Err::<RecordPreamble, DnsPacketParseError>(e) && *final(position)
                    == *old(position),
                Ok((preamble, next)) => r is Ok && r.unwrap()@ == preamble && *final(position)
                    == next,
            },
    {
        let start: u16 = *position;
        let question = Question::try_from(value, &mut *position)?;
        let time_to_live = match get32(*position as usize, value) {
            Ok(number) => number,
            Err(e) => {
                *position = start;
                return Err(e);
            },
        };
        *position += 4;
        Ok(RecordPreamble { question, time_to_live })
    }
}

} // verus!
