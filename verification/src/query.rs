use vstd::prelude::*;
use vstd::slice::{slice_subrange, slice_to_vec};

verus! {

/// The byte that parts the labels of a host name: a dot.
pub const DOT: u8 = 46;

/// The longest label that a name can hold.
pub const MAX_LABEL_LENGTH: usize = 63;

/// Why a host name cannot be put into a query.
#[derive(Debug, PartialEq, Eq)]
pub enum QueryError {
    /// The label is empty, or longer than 63 bytes.
    LabelSize { label: Vec<u8> },
    /// The label holds a byte that is neither a letter nor a digit.
    LabelInvalidCharacter { label: Vec<u8> },
}

/// A `QueryError` as a value: the kind of fault, and the bytes of the label.
pub enum QueryFault {
    LabelSize { label: Seq<u8> },
    LabelInvalidCharacter { label: Seq<u8> },
}

impl View for QueryError {
    type V = QueryFault;

    open spec fn view(&self) -> QueryFault {
        match self {
            QueryError::LabelSize { label } => QueryFault::LabelSize { label: label@ },
            QueryError::LabelInvalidCharacter { label } => QueryFault::LabelInvalidCharacter {
                label: label@,
            },
        }
    }
}

/// An ASCII letter or digit.
pub open spec fn spec_is_alphanumeric(byte: u8) -> bool {
    (48 <= byte <= 57) || (65 <= byte <= 90) || (97 <= byte <= 122)
}

/// The labels of a host name: what stands before, between and behind its
/// dots.
pub open spec fn split_labels(name: Seq<u8>) -> Seq<Seq<u8>>
    decreases name.len(),
{
    if name.len() == 0 {
        seq![Seq::empty()]
    } else {
        let front = split_labels(name.drop_last());
        if name.last() == DOT {
            front.push(Seq::empty())
        } else {
            front.drop_last().push(front.last().push(name.last()))
        }
    }
}

/// What is wrong with a label, if anything: its size first, then its bytes.
pub open spec fn label_fault(label: Seq<u8>) -> Option<QueryFault> {
    if label.len() == 0 || label.len() > MAX_LABEL_LENGTH {
        Some(QueryFault::LabelSize { label })
    } else if exists|i: int| 0 <= i < label.len() && !spec_is_alphanumeric(#[trigger] label[i]) {
        Some(QueryFault::LabelInvalidCharacter { label })
    } else {
        None
    }
}

/// The labels as they stand in a message, each behind a byte that gives its
/// length; or the fault of the first label that has one.
pub open spec fn encode_labels(labels: Seq<Seq<u8>>) -> Result<Seq<u8>, QueryFault>
    decreases labels.len(),
{
    if labels.len() == 0 {
        Ok(Seq::empty())
    } else {
        match encode_labels(labels.drop_last()) {
            Err(fault) => Err(fault),
            Ok(front) => match label_fault(labels.last()) {
                Some(fault) => Err(fault),
                None => Ok(front + seq![labels.last().len() as u8] + labels.last()),
            },
        }
    }
}

/// The header of a query: identifier 0, recursion desired, one question.
pub open spec fn query_header() -> Seq<u8> {
    seq![0u8, 0u8, 1u8, 0u8, 0u8, 1u8, 0u8, 0u8, 0u8, 0u8, 0u8, 0u8]
}

/// What ends the question of a query: the end of the name, then type 1 and
/// class 1.
pub open spec fn query_trailer() -> Seq<u8> {
    seq![0u8, 0u8, 1u8, 0u8, 1u8]
}

/// The query for the address of a host, or the fault of the first of its
/// labels that has one.
pub open spec fn spec_query(host_name: Seq<u8>) -> Result<Seq<u8>, QueryFault> {
    match encode_labels(split_labels(host_name)) {
        Err(fault) => Err(fault),
        Ok(labels) => Ok(query_header() + labels + query_trailer()),
    }
}

/// The labels that end before a dot of a name are the first labels of the
/// name, whatever follows the dot.
pub proof fn lemma_split_prefix(name: Seq<u8>, dot: int)
    requires
        0 <= dot < name.len(),
        name[dot] == DOT,
    ensures
        split_labels(name.take(dot)).len() < split_labels(name).len(),
        split_labels(name).take(split_labels(name.take(dot)).len() as int) == split_labels(
            name.take(dot),
        ),
    decreases name.len(),
{
    let before = split_labels(name.take(dot));
    lemma_split_not_empty(name.take(dot));
    if dot == name.len() - 1 {
        assert(name.drop_last() =~= name.take(dot));
        assert(before.push(Seq::empty()).take(before.len() as int) =~= before);
    } else {
        let shorter = name.drop_last();
        assert(shorter.take(dot) =~= name.take(dot));
        lemma_split_prefix(shorter, dot);
        let front = split_labels(shorter);
        if name.last() == DOT {
            assert(front.push(Seq::empty()).take(before.len() as int) =~= front.take(
                before.len() as int,
            ));
        } else {
            assert(front.drop_last().push(front.last().push(name.last())).take(
                before.len() as int,
            ) =~= front.take(before.len() as int));
        }
    }
}

/// A name has at least one label.
pub proof fn lemma_split_not_empty(name: Seq<u8>)
    ensures
        split_labels(name).len() >= 1,
    decreases name.len(),
{
    if name.len() > 0 {
        lemma_split_not_empty(name.drop_last());
    }
}

/// A fault among the first labels is the fault of the whole.
pub proof fn lemma_encode_prefix_fault(labels: Seq<Seq<u8>>, count: int)
    requires
        0 <= count <= labels.len(),
        encode_labels(labels.take(count)) is Err,
    ensures
        encode_labels(labels) == encode_labels(labels.take(count)),
    decreases labels.len(),
{
    if count == labels.len() {
        assert(labels.take(count) =~= labels);
    } else {
        assert(labels.drop_last().take(count) =~= labels.take(count));
        lemma_encode_prefix_fault(labels.drop_last(), count);
    }
}

/// Whether a byte is an ASCII letter or digit.
pub fn is_alphanumeric(byte: u8) -> (r: bool)
    ensures
        r == spec_is_alphanumeric(byte),
{
    (48 <= byte && byte <= 57) || (65 <= byte && byte <= 90) || (97 <= byte && byte <= 122)
}

/// Checks a label: `Ok` where it has no fault, else its fault.
pub fn check_label(label: &[u8]) -> (r: Result<(), QueryError>)
    ensures
        match label_fault(label@) {
            None => r is Ok,
            Some(fault) => r is Err && r.unwrap_err()@ == fault,
        },
{
    if label.len() == 0 || label.len() > MAX_LABEL_LENGTH {
        return Err(QueryError::LabelSize { label: slice_to_vec(label) });
    }
    let mut i: usize = 0;
    while i < label.len()
        invariant
            i <= label.len(),
            0 < label@.len() <= MAX_LABEL_LENGTH,
            forall|j: int| 0 <= j < i ==> spec_is_alphanumeric(#[trigger] label@[j]),
        decreases label.len() - i,
    {
        if !is_alphanumeric(label[i]) {
            assert(!spec_is_alphanumeric(label@[i as int]));
            return Err(QueryError::LabelInvalidCharacter { label: slice_to_vec(label) });
        }
        i += 1;
    }
    Ok(())
}

/// Builds the query for the address of a host: the header, the name label
/// by label, and the type and class. The first label that is empty, longer
/// than 63 bytes or holds anything but ASCII letters and digits fails the
/// whole.
pub fn build_query(host_name: &[u8]) -> (r: Result<Vec<u8>, QueryError>)
    ensures
        match spec_query(host_name@) {
            Err(fault) => r is Err && r.unwrap_err()@ == fault,
            Ok(bytes) => r is Ok && r.unwrap()@ == bytes,
        },
{
    let mut packet: Vec<u8> = Vec::new();
    packet.push(0);
    packet.push(0);
    packet.push(1);
    packet.push(0);
    packet.push(0);
    packet.push(1);
    packet.push(0);
    packet.push(0);
    packet.push(0);
    packet.push(0);
    packet.push(0);
    packet.push(0);
    let ghost mut done: Seq<Seq<u8>> = Seq::empty();
    let ghost mut body: Seq<u8> = Seq::empty();
    let mut start: usize = 0;
    proof {
        assert(packet@ =~= query_header() + body);
        assert(host_name@.take(0) =~= Seq::<u8>::empty());
    }
    loop
        invariant
            start <= host_name@.len(),
            packet@ == query_header() + body,
            encode_labels(done) == Ok::<Seq<u8>, QueryFault>(body),
            split_labels(host_name@.take(start as int)) == done.push(Seq::empty()),
        decreases host_name@.len() - start,
    {
        let mut end: usize = start;
        proof {
            assert(host_name@.subrange(start as int, end as int) =~= Seq::<u8>::empty());
        }
        while end < host_name.len() && host_name[end] != DOT
            invariant
                start <= end <= host_name@.len(),
                split_labels(host_name@.take(end as int)) == done.push(
                    host_name@.subrange(start as int, end as int),
                ),
            decreases host_name@.len() - end,
        {
            proof {
                let longer = host_name@.take(end + 1);
                assert(longer.drop_last() =~= host_name@.take(end as int));
                assert(longer.last() == host_name@[end as int]);
                let front = done.push(host_name@.subrange(start as int, end as int));
                assert(front.drop_last() =~= done);
                assert(host_name@.subrange(start as int, end as int).push(host_name@[end as int])
                    =~= host_name@.subrange(start as int, end + 1));
            }
            end += 1;
        }
        let label: &[u8] = slice_subrange(host_name, start, end);
        let ghost labels = done.push(label@);
        proof {
            assert(labels.drop_last() =~= done);
            assert(labels.last() == label@);
            if end < host_name@.len() {
                lemma_split_prefix(host_name@, end as int);
                let longer = host_name@.take(end + 1);
                assert(longer.drop_last() =~= host_name@.take(end as int));
                assert(split_labels(longer) == labels.push(Seq::empty()));
            } else {
                assert(host_name@.take(end as int) =~= host_name@);
            }
        }
        match check_label(label) {
            Err(e) => {
                proof {
                    if end < host_name@.len() {
                        assert(split_labels(host_name@).take(labels.len() as int) == labels);
                        lemma_encode_prefix_fault(split_labels(host_name@), labels.len() as int);
                    }
                }
                return Err(e);
            },
            Ok(()) => {},
        }
        packet.push(label.len() as u8);
        let ghost front = packet@;
        let mut k: usize = 0;
        while k < label.len()
            invariant
                k <= label.len(),
                packet@ == front + label@.take(k as int),
            decreases label.len() - k,
        {
            packet.push(label[k]);
            proof {
                assert(label@.take(k as int).push(label@[k as int]) =~= label@.take(k + 1));
            }
            k += 1;
        }
        proof {
            assert(label@.take(k as int) =~= label@);
            let longer = body + seq![label@.len() as u8] + label@;
            assert(packet@ =~= query_header() + longer);
            body = longer;
            done = labels;
        }
        if end == host_name.len() {
            packet.push(0);
            packet.push(0);
            packet.push(1);
            packet.push(0);
            packet.push(1);
            proof {
                assert(packet@ =~= query_header() + body + query_trailer());
            }
            return Ok(packet);
        }
        start = end + 1;
    }
}

} // verus!
