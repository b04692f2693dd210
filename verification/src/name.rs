use crate::error::DnsPacketParseError;
use crate::reader::{get16, get8, out_of_bounds};
use vstd::prelude::*;
use vstd::slice::slice_subrange;

verus! {

/// The number of compression pointers that one name may run through.
pub const JUMP_LIMIT: u8 = 5;

/// The longest message that a 16-bit cursor can walk.
pub const MAX_PACKET_LENGTH: usize = 65535;

/// A byte with its two high bits set starts a compression pointer.
pub open spec fn is_pointer(byte: u8) -> bool {
    byte >= 0xC0
}

/// The length that a length byte announces: its low six bits.
pub open spec fn label_length(byte: u8) -> int {
    byte as int % 64
}

/// The offset that the two bytes of a compression pointer name: the low
/// fourteen bits of the big-endian pair.
pub open spec fn pointer_target(high: u8, low: u8) -> int {
    (high as int % 64) * 256 + low as int
}

/// One step of the walk over a name: the label that was read, if the name
/// has not ended, and where the walk stands after it.
pub struct Section {
    pub label: Option<Seq<u8>>,
    pub position: int,
    pub jump_counter: int,
}

/// One step of the walk: follow compression pointers from `position` until
/// a length byte is met, then read the label that it announces.
pub open spec fn spec_read_section(packet: Seq<u8>, position: int, jump_counter: int) -> Result<
    Section,
    DnsPacketParseError,
>
    decreases JUMP_LIMIT - jump_counter,
{
    if !(0 <= position < packet.len()) {
        Err(out_of_bounds(position, packet.len() as int))
    } else if is_pointer(packet[position]) {
        if position + 1 >= packet.len() {
            Err(out_of_bounds(position + 1, packet.len() as int))
        } else if jump_counter >= JUMP_LIMIT {
            Err(DnsPacketParseError::JumpLimitExceeded)
        } else {
            spec_read_section(
                packet,
                pointer_target(packet[position], packet[position + 1]),
                jump_counter + 1,
            )
        }
    } else {
        let length = label_length(packet[position]);
        if length == 0 {
            Ok(Section { label: None, position, jump_counter })
        } else if position + 1 + length > packet.len() {
            Err(out_of_bounds(position + 1, packet.len() as int))
        } else {
            Ok(
                Section {
                    label: Some(packet.subrange(position + 1, position + 1 + length)),
                    position: position + 1 + length,
                    jump_counter,
                },
            )
        }
    }
}

/// By how much one step moves the cursor of the enclosing message: by the
/// size of what stands at `position`, as long as no pointer was followed
/// before.
pub open spec fn spec_footprint(packet: Seq<u8>, position: int, jump_counter: int) -> int {
    if jump_counter != 0 {
        0
    } else if is_pointer(packet[position]) {
        2
    } else {
        1 + label_length(packet[position])
    }
}

/// `label` in front of the labels in `rest`, where there are any.
pub open spec fn prepend(label: Seq<u8>, rest: Result<Seq<Seq<u8>>, DnsPacketParseError>) -> Result<
    Seq<Seq<u8>>,
    DnsPacketParseError,
> {
    match rest {
        Ok(labels) => Ok(seq![label] + labels),
        Err(e) => Err(e),
    }
}

/// The labels of the name that starts at `position`, after `jump_counter`
/// pointers were followed already.
pub open spec fn spec_read_name(packet: Seq<u8>, position: int, jump_counter: int) -> Result<
    Seq<Seq<u8>>,
    DnsPacketParseError,
>
    decreases JUMP_LIMIT - jump_counter, packet.len() - position,
{
    if !(0 <= position < packet.len()) {
        Err(out_of_bounds(position, packet.len() as int))
    } else if is_pointer(packet[position]) {
        if position + 1 >= packet.len() {
            Err(out_of_bounds(position + 1, packet.len() as int))
        } else if jump_counter >= JUMP_LIMIT {
            Err(DnsPacketParseError::JumpLimitExceeded)
        } else {
            spec_read_name(
                packet,
                pointer_target(packet[position], packet[position + 1]),
                jump_counter + 1,
            )
        }
    } else {
        let length = label_length(packet[position]);
        if length == 0 {
            Ok(Seq::empty())
        } else if position + 1 + length > packet.len() {
            Err(out_of_bounds(position + 1, packet.len() as int))
        } else {
            prepend(
                packet.subrange(position + 1, position + 1 + length),
                spec_read_name(packet, position + 1 + length, jump_counter),
            )
        }
    }
}

/// The number of bytes that the name at `position` takes in the message
/// where it stands: its labels up to and including the byte that ends it,
/// or up to and including the first compression pointer.
pub open spec fn spec_encoded_length(packet: Seq<u8>, position: int) -> int
    decreases packet.len() - position,
{
    if !(0 <= position < packet.len()) {
        0
    } else if is_pointer(packet[position]) {
        2
    } else {
        let length = label_length(packet[position]);
        if length == 0 {
            1
        } else if position + 1 + length > packet.len() {
            0
        } else {
            1 + length + spec_encoded_length(packet, position + 1 + length)
        }
    }
}

/// Where the name that starts at `position` ends, and how many pointers
/// were followed on the way there: the position of the byte that ends it,
/// and the count of jumps.
pub open spec fn spec_name_end(packet: Seq<u8>, position: int, jump_counter: int) -> (int, int)
    decreases JUMP_LIMIT - jump_counter, packet.len() - position,
{
    if !(0 <= position < packet.len()) {
        (position, jump_counter)
    } else if is_pointer(packet[position]) {
        if position + 1 >= packet.len() || jump_counter >= JUMP_LIMIT {
            (position, jump_counter)
        } else {
            spec_name_end(
                packet,
                pointer_target(packet[position], packet[position + 1]),
                jump_counter + 1,
            )
        }
    } else {
        let length = label_length(packet[position]);
        if length == 0 || position + 1 + length > packet.len() {
            (position, jump_counter)
        } else {
            spec_name_end(packet, position + 1 + length, jump_counter)
        }
    }
}

/// The labels in `front` before those in `rest`, where there are any.
pub open spec fn prepend_all(
    front: Seq<Seq<u8>>,
    rest: Result<Seq<Seq<u8>>, DnsPacketParseError>,
) -> Result<Seq<Seq<u8>>, DnsPacketParseError> {
    match rest {
        Ok(labels) => Ok(front + labels),
        Err(e) => Err(e),
    }
}

/// The bytes of each of the labels.
pub open spec fn labels_view(labels: Seq<&[u8]>) -> Seq<Seq<u8>> {
    Seq::new(labels.len(), |i: int| labels[i]@)
}

/// Where a step leads: never back in the count of jumps, never past the
/// limit, and forward in the buffer where no pointer was followed.
pub proof fn lemma_section_bounds(packet: Seq<u8>, position: int, jump_counter: int)
    requires
        0 <= jump_counter <= JUMP_LIMIT,
        0 <= position,
    ensures
        match spec_read_section(packet, position, jump_counter) {
            Ok(s) => {
                &&& jump_counter <= s.jump_counter <= JUMP_LIMIT
                &&& 0 <= s.position <= packet.len()
                &&& position < packet.len()
                &&& is_pointer(packet[position]) <==> s.jump_counter > jump_counter
                &&& is_pointer(packet[position]) ==> position + 2 <= packet.len()
                &&& s.jump_counter == jump_counter ==> match s.label {
                    Some(label) => s.position == position + 1 + label.len() && 1 <= label.len()
                        <= 63 && label.len() == label_length(packet[position]),
                    None => s.position == position && label_length(packet[position]) == 0,
                }
                &&& s.label matches Some(label) ==> 1 <= label.len() <= 63
            },
            Err(_) => true,
        },
    decreases JUMP_LIMIT - jump_counter,
{
    if 0 <= position < packet.len() && is_pointer(packet[position]) && position + 1
        < packet.len() && jump_counter < JUMP_LIMIT {
        lemma_section_bounds(
            packet,
            pointer_target(packet[position], packet[position + 1]),
            jump_counter + 1,
        );
    }
}

/// A name is its first step, followed by the name that starts where that
/// step ends.
pub proof fn lemma_name_by_sections(packet: Seq<u8>, position: int, jump_counter: int)
    requires
        0 <= jump_counter <= JUMP_LIMIT,
    ensures
        spec_read_name(packet, position, jump_counter) == match spec_read_section(
            packet,
            position,
            jump_counter,
        ) {
            Err(e) => Err::<Seq<Seq<u8>>, DnsPacketParseError>(e),
            Ok(s) => match s.label {
                None => Ok(Seq::empty()),
                Some(label) => prepend(label, spec_read_name(packet, s.position, s.jump_counter)),
            },
        },
    decreases JUMP_LIMIT - jump_counter,
{
    if 0 <= position < packet.len() && is_pointer(packet[position]) && position + 1
        < packet.len() && jump_counter < JUMP_LIMIT {
        lemma_name_by_sections(
            packet,
            pointer_target(packet[position], packet[position + 1]),
            jump_counter + 1,
        );
    }
}

/// A name ends where its first step ends, if that step meets the end, and
/// else where the name ends that starts behind that step.
pub proof fn lemma_name_end_by_sections(packet: Seq<u8>, position: int, jump_counter: int)
    requires
        0 <= jump_counter <= JUMP_LIMIT,
    ensures
        match spec_read_section(packet, position, jump_counter) {
            Err(_) => true,
            Ok(s) => spec_name_end(packet, position, jump_counter) == match s.label {
                None => (s.position, s.jump_counter),
                Some(_) => spec_name_end(packet, s.position, s.jump_counter),
            },
        },
    decreases JUMP_LIMIT - jump_counter,
{
    if 0 <= position < packet.len() && is_pointer(packet[position]) && position + 1
        < packet.len() && jump_counter < JUMP_LIMIT {
        lemma_name_end_by_sections(
            packet,
            pointer_target(packet[position], packet[position + 1]),
            jump_counter + 1,
        );
    }
}

/// A name that can be read takes at least one byte where it stands, and
/// ends within the buffer.
pub proof fn lemma_encoded_length_bounds(packet: Seq<u8>, position: int, jump_counter: int)
    requires
        0 <= position,
        spec_read_name(packet, position, jump_counter) is Ok,
    ensures
        1 <= spec_encoded_length(packet, position),
        position + spec_encoded_length(packet, position) <= packet.len(),
    decreases packet.len() - position,
{
    if !is_pointer(packet[position]) {
        let length = label_length(packet[position]);
        if length != 0 {
            lemma_encoded_length_bounds(packet, position + 1 + length, jump_counter);
        }
    }
}

/// `hops` compression pointers follow one another from `position`, each
/// of them whole within the buffer.
pub open spec fn pointer_chain(packet: Seq<u8>, position: int, hops: nat) -> bool
    decreases hops,
{
    hops == 0 || (0 <= position && position + 1 < packet.len() && is_pointer(packet[position])
        && pointer_chain(
        packet,
        pointer_target(packet[position], packet[position + 1]),
        (hops - 1) as nat,
    ))
}

/// Where a chain of `hops` compression pointers from `position` leads.
pub open spec fn chain_end(packet: Seq<u8>, position: int, hops: nat) -> int
    decreases hops,
{
    if hops == 0 {
        position
    } else {
        chain_end(packet, pointer_target(packet[position], packet[position + 1]), (hops - 1) as nat)
    }
}

/// A chain of pointers that stays within the limit is followed to its end:
/// the name read at its start is the name read where it leads. With no
/// pointer followed before, that holds of every chain of up to five hops.
pub proof fn lemma_chain_within_limit(packet: Seq<u8>, position: int, jump_counter: int, hops: nat)
    requires
        0 <= jump_counter,
        jump_counter + hops <= JUMP_LIMIT,
        pointer_chain(packet, position, hops),
    ensures
        spec_read_name(packet, position, jump_counter) == spec_read_name(
            packet,
            chain_end(packet, position, hops),
            jump_counter + hops,
        ),
        spec_read_section(packet, position, jump_counter) == spec_read_section(
            packet,
            chain_end(packet, position, hops),
            jump_counter + hops,
        ),
    decreases hops,
{
    if hops > 0 {
        lemma_chain_within_limit(
            packet,
            pointer_target(packet[position], packet[position + 1]),
            jump_counter + 1,
            (hops - 1) as nat,
        );
    }
}

/// A chain of pointers that runs past the limit fails: with no pointer
/// followed before, every chain of six hops or more.
pub proof fn lemma_chain_over_limit(packet: Seq<u8>, position: int, jump_counter: int, hops: nat)
    requires
        0 <= jump_counter <= JUMP_LIMIT,
        jump_counter + hops > JUMP_LIMIT,
        pointer_chain(packet, position, hops),
    ensures
        spec_read_name(packet, position, jump_counter) == Err::<
            Seq<Seq<u8>>,
            DnsPacketParseError,
        >(DnsPacketParseError::JumpLimitExceeded),
        spec_read_section(packet, position, jump_counter) == Err::<Section, DnsPacketParseError>(
            DnsPacketParseError::JumpLimitExceeded,
        ),
    decreases hops,
{
    if jump_counter < JUMP_LIMIT {
        lemma_chain_over_limit(
            packet,
            pointer_target(packet[position], packet[position + 1]),
            jump_counter + 1,
            (hops - 1) as nat,
        );
    }
}

/// Five pointers in a chain are followed: where the chain leads to the end
/// of a name, the name is read, and it is empty.
pub proof fn lemma_five_hops_succeed(packet: Seq<u8>, position: int)
    requires
        pointer_chain(packet, position, 5),
        0 <= chain_end(packet, position, 5) < packet.len(),
        packet[chain_end(packet, position, 5)] == 0,
    ensures
        spec_read_name(packet, position, 0) == Ok::<Seq<Seq<u8>>, DnsPacketParseError>(
            Seq::empty(),
        ),
{
    lemma_chain_within_limit(packet, position, 0, 5);
}

/// A name that is read after some pointers were followed is read the same
/// after fewer.
pub proof fn lemma_fewer_jumps(packet: Seq<u8>, position: int, fewer: int, more: int)
    requires
        0 <= fewer <= more <= JUMP_LIMIT,
        spec_read_name(packet, position, more) is Ok,
    ensures
        spec_read_name(packet, position, fewer) == spec_read_name(packet, position, more),
    decreases JUMP_LIMIT - more, packet.len() - position,
{
    if is_pointer(packet[position]) {
        lemma_fewer_jumps(
            packet,
            pointer_target(packet[position], packet[position + 1]),
            fewer + 1,
            more + 1,
        );
    } else {
        let length = label_length(packet[position]);
        if length != 0 {
            lemma_fewer_jumps(packet, position + 1 + length, fewer, more);
        }
    }
}

/// A name that is nothing but a pointer to another name has the labels of
/// that name, and takes two bytes where it stands.
pub proof fn lemma_pointer_to_name(packet: Seq<u8>, position: int)
    requires
        0 <= position,
        position + 1 < packet.len(),
        is_pointer(packet[position]),
        spec_read_name(packet, pointer_target(packet[position], packet[position + 1]), 1) is Ok,
    ensures
        spec_read_name(packet, position, 0) == spec_read_name(
            packet,
            pointer_target(packet[position], packet[position + 1]),
            0,
        ),
        spec_encoded_length(packet, position) == 2,
{
    lemma_fewer_jumps(packet, pointer_target(packet[position], packet[position + 1]), 0, 1);
}

/// Where a walk over a name stands.
pub struct WalkState {
    /// Where the walk reads next.
    pub position: int,
    /// The cursor of the enclosing message.
    pub global_position: int,
    /// How many compression pointers the walk has followed.
    pub jump_counter: int,
    /// Whether the walk has met the end of the name.
    pub finished: bool,
}

/// What one read gives, and where the walk stands after it. After the end
/// of the name every read gives `None`; a read that fails changes nothing.
pub open spec fn spec_step(packet: Seq<u8>, before: WalkState) -> (
    Result<Option<Seq<u8>>, DnsPacketParseError>,
    WalkState,
) {
    if before.finished {
        (Ok(None), before)
    } else {
        match spec_read_section(packet, before.position, before.jump_counter) {
            Err(e) => (Err(e), before),
            Ok(s) => (
                Ok(s.label),
                WalkState {
                    position: s.position,
                    global_position: before.global_position + spec_footprint(
                        packet,
                        before.position,
                        before.jump_counter,
                    ),
                    jump_counter: s.jump_counter,
                    finished: s.label is None,
                },
            ),
        }
    }
}

/// What reading a name to its end gives, and where the walk stands after
/// it: at the end of the name, with the cursor of the message behind the
/// name as it stands there, if no pointer was followed before. After the
/// end of the name no labels are left; a failure changes nothing.
pub open spec fn spec_collect(packet: Seq<u8>, before: WalkState) -> (
    Result<Seq<Seq<u8>>, DnsPacketParseError>,
    WalkState,
) {
    if before.finished {
        (Ok(Seq::empty()), before)
    } else {
        match spec_read_name(packet, before.position, before.jump_counter) {
            Err(e) => (Err(e), before),
            Ok(labels) => (
                Ok(labels),
                WalkState {
                    position: spec_name_end(packet, before.position, before.jump_counter).0,
                    global_position: before.global_position + if before.jump_counter == 0 {
                        spec_encoded_length(packet, before.position)
                    } else {
                        0
                    },
                    jump_counter: spec_name_end(packet, before.position, before.jump_counter).1,
                    finished: true,
                },
            ),
        }
    }
}

/// The outcome of reading a name, with each label as a sequence of bytes.
pub open spec fn collected_view(r: Result<Vec<&[u8]>, DnsPacketParseError>) -> Result<
    Seq<Seq<u8>>,
    DnsPacketParseError,
> {
    match r {
        Ok(labels) => Ok(labels_view(labels@)),
        Err(e) => Err(e),
    }
}

/// The outcome of a read, with the label as a sequence of bytes.
pub open spec fn section_view(r: Result<Option<&[u8]>, DnsPacketParseError>) -> Result<
    Option<Seq<u8>>,
    DnsPacketParseError,
> {
    match r {
        Ok(Some(label)) => Ok(Some(label@)),
        Ok(None) => Ok(None),
        Err(e) => Err(e),
    }
}

/// The outcome of a read as an iterator gives it: nothing at the end of
/// the name, else the label or the failure.
pub open spec fn item_view(r: Option<Result<&[u8], DnsPacketParseError>>) -> Result<
    Option<Seq<u8>>,
    DnsPacketParseError,
> {
    match r {
        Some(Ok(label)) => Ok(Some(label@)),
        None => Ok(None),
        Some(Err(e)) => Err(e),
    }
}

/// The walk over the labels of one name. It reads at `position`, which
/// compression pointers move about, and advances `global_position`, the
/// cursor of the enclosing message, past the name as it stands there.
pub struct LabelSequenceIterator<'a, 'b> {
    pub position: u16,
    pub packet: &'a [u8],
    pub global_position: &'b mut u16,
    pub jump_counter: u8,
    pub finished: bool,
}

impl<'a, 'b> View for LabelSequenceIterator<'a, 'b> {
    type V = WalkState;

    open spec fn view(&self) -> WalkState {
        WalkState {
            position: self.position as int,
            global_position: *self.global_position as int,
            jump_counter: self.jump_counter as int,
            finished: self.finished,
        }
    }
}

impl<'a, 'b> LabelSequenceIterator<'a, 'b> {
    /// The walk is within a message that a 16-bit cursor can cover, has not
    /// followed more pointers than allowed, and, as long as it has followed
    /// none, reads where the cursor of the message stands.
    pub open spec fn wf(&self) -> bool {
        &&& self.packet@.len() <= MAX_PACKET_LENGTH
        &&& self.jump_counter <= JUMP_LIMIT
        &&& (!self.finished && self.jump_counter == 0) ==> *self.global_position == self.position
    }

    /// Starts a walk at the cursor of the message.
    pub fn new(position: &'b mut u16, packet: &'a [u8]) -> (r: Self)
        requires
            packet@.len() <= MAX_PACKET_LENGTH,
        ensures
            r.wf(),
            r.position == *old(position),
            r.packet@ == packet@,
            *r.global_position == *old(position),
            *final(r.global_position) == *final(position),
            r.jump_counter == 0,
            !r.finished,
    {
        Self { position: *position, packet, global_position: position, jump_counter: 0, finished: false }
    }

    /// Reads the next label of the name, or `None` at its end and ever
    /// after. A failure leaves the walk and the cursor as they were.
    pub fn read_section(&mut self) -> (r: Result<Option<&'a [u8]>, DnsPacketParseError>)
        requires
            old(self).wf(),
        ensures
            final(self).wf(),
            final(self).packet@ == old(self).packet@,
            *final(final(self).global_position) == *final(old(self).global_position),
            (section_view(r), final(self)@) == spec_step(old(self).packet@, old(self)@),
    {
        if self.finished {
            return Ok(None);
        }
        let mut position: u16 = self.position;
        let mut jump_counter: u8 = self.jump_counter;
        let mut byte: u8 = get8(position as usize, self.packet)?;
        while byte & 0b1100_0000 == 0b1100_0000
            invariant
                self.wf(),
                !self.finished,
                self.position == old(self).position,
                self.jump_counter == old(self).jump_counter,
                self.packet == old(self).packet,
                *self.global_position == *old(self).global_position,
                *final(self.global_position) == *final(old(self).global_position),
                self.jump_counter <= jump_counter <= JUMP_LIMIT,
                0 <= position < self.packet@.len(),
                byte == self.packet@[position as int],
                jump_counter == self.jump_counter ==> position == self.position,
                jump_counter > self.jump_counter ==> is_pointer(self.packet@[self.position as int])
                    && self.position + 2 <= self.packet@.len(),
                0 <= self.position < self.packet@.len(),
                spec_read_section(self.packet@, position as int, jump_counter as int)
                    == spec_read_section(
                    self.packet@,
                    self.position as int,
                    self.jump_counter as int,
                ),
            decreases JUMP_LIMIT - jump_counter,
        {
            proof {
                assert((byte & 0b1100_0000 == 0b1100_0000) <==> byte >= 0xC0) by (bit_vector);
            }
            let pointer: u16 = get16(position as usize, self.packet)?;
            if jump_counter >= JUMP_LIMIT {
                return Err(DnsPacketParseError::JumpLimitExceeded);
            }
            proof {
                let high: u8 = self.packet@[position as int];
                let low: u8 = self.packet@[position + 1];
                assert(pointer == high as u16 * 256 + low as u16);
                assert(((high as u16 * 256 + low as u16) as u16 & 0b0011_1111_1111_1111) == (high
                    as u16 % 64) * 256 + low as u16) by (bit_vector);
            }
            position = pointer & 0b0011_1111_1111_1111;
            jump_counter += 1;
            byte = get8(position as usize, self.packet)?;
        }
        proof {
            assert((byte & 0b1100_0000 == 0b1100_0000) <==> byte >= 0xC0) by (bit_vector);
            assert((byte & 0b0011_1111) == byte % 64) by (bit_vector);
        }
        let length: u8 = byte & 0b0011_1111;
        let advance: u16 = if self.jump_counter != 0 {
            0
        } else if jump_counter != 0 {
            2
        } else {
            1 + length as u16
        };
        if length == 0 {
            *self.global_position += advance;
            self.position = position;
            self.jump_counter = jump_counter;
            self.finished = true;
            return Ok(None);
        }
        let start: usize = position as usize + 1;
        let end: usize = start + length as usize;
        if end > self.packet.len() {
            return Err(
                DnsPacketParseError::OutOfBounds {
                    index: self.packet.len(),
                    length: self.packet.len(),
                },
            );
        }
        let content: &'a [u8] = slice_subrange(self.packet, start, end);
        *self.global_position += advance;
        self.position = position + length as u16 + 1;
        self.jump_counter = jump_counter;
        Ok(Some(content))
    }
    /// Reads the next label as an iterator does: `None` at the end of the
    /// name and ever after, else the label or the failure.
    pub fn next(&mut self) -> (r: Option<Result<&'a [u8], DnsPacketParseError>>)
        requires
            old(self).wf(),
        ensures
            final(self).wf(),
            final(self).packet@ == old(self).packet@,
            *final(final(self).global_position) == *final(old(self).global_position),
            (item_view(r), final(self)@) == spec_step(old(self).packet@, old(self)@),
    {
        match self.read_section() {
            Ok(Some(label)) => Some(Ok(label)),
            Ok(None) => None,
            Err(e) => Some(Err(e)),
        }
    }

    /// Reads the labels that are left of the name, and leaves the cursor of
    /// the message behind the name as it stands there. After the end of the
    /// name there are none left. A failure leaves the walk and the cursor as
    /// they were.
    pub fn collect(&mut self) -> (r: Result<Vec<&'a [u8]>, DnsPacketParseError>)
        requires
            old(self).wf(),
        ensures
            final(self).wf(),
            final(self).packet@ == old(self).packet@,
            *final(final(self).global_position) == *final(old(self).global_position),
            (collected_view(r), final(self)@) == spec_collect(old(self).packet@, old(self)@),
    {
        if self.finished {
            let none: Vec<&'a [u8]> = Vec::new();
            proof {
                assert(labels_view(none@) =~= Seq::<Seq<u8>>::empty());
            }
            return Ok(none);
        }
        let start_position: u16 = self.position;
        let start_jumps: u8 = self.jump_counter;
        let start_global: u16 = *self.global_position;
        let mut labels: Vec<&'a [u8]> = Vec::new();
        proof {
            assert(labels_view(labels@) =~= Seq::<Seq<u8>>::empty());
            assert(prepend_all(
                labels_view(labels@),
                spec_read_name(self.packet@, self.position as int, self.jump_counter as int),
            ) =~= spec_read_name(self.packet@, self.position as int, self.jump_counter as int)) by {
                match spec_read_name(self.packet@, self.position as int, self.jump_counter as int) {
                    Ok(rest) => {
                        assert(Seq::<Seq<u8>>::empty() + rest =~= rest);
                    },
                    Err(_) => {},
                }
            }
        }
        loop
            invariant
                self.wf(),
                !self.finished,
                old(self).wf(),
                !old(self).finished,
                self.packet == old(self).packet,
                *final(self.global_position) == *final(old(self).global_position),
                start_position == old(self).position,
                start_jumps == old(self).jump_counter,
                start_global == *old(self).global_position,
                old(self).jump_counter <= self.jump_counter,
                prepend_all(
                    labels_view(labels@),
                    spec_read_name(self.packet@, self.position as int, self.jump_counter as int),
                ) == spec_read_name(
                    self.packet@,
                    old(self).position as int,
                    old(self).jump_counter as int,
                ),
                spec_name_end(self.packet@, self.position as int, self.jump_counter as int)
                    == spec_name_end(
                    self.packet@,
                    old(self).position as int,
                    old(self).jump_counter as int,
                ),
                old(self).jump_counter > 0 ==> *self.global_position == start_global,
                self.jump_counter == 0 ==> start_global + spec_encoded_length(
                    self.packet@,
                    start_position as int,
                ) == self.position + spec_encoded_length(self.packet@, self.position as int),
                old(self).jump_counter == 0 && self.jump_counter > 0 ==> *self.global_position
                    == start_global + spec_encoded_length(self.packet@, start_position as int),
            decreases JUMP_LIMIT - self.jump_counter, self.packet@.len() - self.position,
        {
            proof {
                lemma_section_bounds(self.packet@, self.position as int, self.jump_counter as int);
                lemma_name_by_sections(self.packet@, self.position as int, self.jump_counter as int);
                lemma_name_end_by_sections(
                    self.packet@,
                    self.position as int,
                    self.jump_counter as int,
                );
            }
            let ghost before = labels@;
            let ghost rest = spec_read_name(
                self.packet@,
                self.position as int,
                self.jump_counter as int,
            );
            match self.read_section() {
                Err(e) => {
                    self.position = start_position;
                    self.jump_counter = start_jumps;
                    *self.global_position = start_global;
                    return Err(e);
                },
                Ok(None) => {
                    proof {
                        assert(labels_view(labels@) + Seq::<Seq<u8>>::empty() =~= labels_view(
                            labels@,
                        ));
                    }
                    return Ok(labels);
                },
                Ok(Some(label)) => {
                    labels.push(label);
                    proof {
                        let after = spec_read_name(
                            self.packet@,
                            self.position as int,
                            self.jump_counter as int,
                        );
                        assert(labels_view(labels@) =~= labels_view(before).push(label@));
                        assert(rest == prepend(label@, after));
                        match after {
                            Ok(tail) => {
                                assert(labels_view(before) + (seq![label@] + tail) =~= labels_view(
                                    labels@,
                                ) + tail);
                            },
                            Err(_) => {},
                        }
                    }
                },
            }
        }
    }
}

} // verus!
