//! Message records and the fixed-capacity ring that stores them.
//!
//! A record travels as exactly 289 bytes: a 32-byte writer identity, one
//! length byte, then a 256-byte payload whose bytes past the declared length
//! must be zero.  The ring is persisted in a 36,996-byte region: a
//! little-endian 32-bit head index followed by 128 consecutive records.

use vstd::prelude::*;
use vstd::pervasive::VecAdditionalExecFns;
use crate::error::MessageError;

verus! {

/// Number of payload bytes carried by every message record.
pub const MESSAGE_LENGTH: usize = 256;
/// Number of bytes in a writer identity.
pub const WRITER_LENGTH: usize = 32;
/// Encoded size of one message record: 32 + 1 + 256.
pub const MESSAGE_SIZE: usize = 289;
/// Number of messages kept in the history.
pub const MESSAGE_HISTORY: usize = 128;
/// Encoded size of the whole ring: 4 + 128 * 289.
pub const BUFFER_SIZE: usize = 36996;

/// Mathematical model of one message record.
#[verifier::ext_equal]
pub ghost struct MessageModel {
    pub writer: Seq<u8>,
    pub length: u8,
    pub bytes: Seq<u8>,
}

/// A model is well formed when its two byte sequences have their fixed sizes.
pub open spec fn msg_wf(m: MessageModel) -> bool {
    &&& m.writer.len() == WRITER_LENGTH
    &&& m.bytes.len() == MESSAGE_LENGTH
}

/// Wire format of a record: the writer, then the length byte, then the payload.
pub open spec fn msg_encode(m: MessageModel) -> Seq<u8> {
    m.writer + seq![m.length] + m.bytes
}

/// Every payload byte at or past the declared length is zero.
pub open spec fn padding_zero(bytes: Seq<u8>, length: u8) -> bool {
    forall|i: int| length <= i < bytes.len() ==> bytes[i] == 0
}

/// What decoding an untrusted byte string yields: the validated record, or
/// the error that the first failing check raises.  Checks run in a fixed
/// order: size, trailing padding, emptiness.
pub open spec fn msg_decode(input: Seq<u8>) -> Result<MessageModel, MessageError> {
    if input.len() > MESSAGE_SIZE {
        Err(MessageError::MessageTooLarge)
    } else if input.len() < MESSAGE_SIZE {
        Err(MessageError::MessageTooSmall)
    } else {
        let length = input[WRITER_LENGTH as int];
        let bytes = input.subrange(33, MESSAGE_SIZE as int);
        if !padding_zero(bytes, length) {
            Err(MessageError::MessageLengthTooSmall)
        } else if length == 0 {
            Err(MessageError::MessageEmpty)
        } else {
            Ok(MessageModel { writer: input.subrange(0, WRITER_LENGTH as int), length, bytes })
        }
    }
}

/// One message record.
#[derive(Debug, PartialEq, Eq)]
pub struct Message {
    /// Identity of the writer of the message.
    pub writer: Vec<u8>,
    /// Number of meaningful leading payload bytes, between 1 and the payload size.
    pub length: u8,
    /// The payload; bytes at index >= `length` are zero in a valid record.
    pub bytes: Vec<u8>,
}

impl View for Message {
    type V = MessageModel;

    open spec fn view(&self) -> MessageModel {
        MessageModel { writer: self.writer@, length: self.length, bytes: self.bytes@ }
    }
}

impl Message {
    /// The record's byte sequences have their fixed sizes.
    pub open spec fn wf(&self) -> bool {
        msg_wf(self@)
    }

    /// Decodes and validates one candidate record from `input`.
    pub fn unpack(input: &[u8]) -> (r: Result<Message, MessageError>)
        ensures
            match r {
                Ok(m) => m.wf() && msg_decode(input@) == Ok::<MessageModel, MessageError>(m@),
                Err(e) => msg_decode(input@) == Err::<MessageModel, MessageError>(e),
            },
    {
        if input.len() > MESSAGE_SIZE {
            return Err(MessageError::MessageTooLarge);
        }
        if input.len() < MESSAGE_SIZE {
            return Err(MessageError::MessageTooSmall);
        }

        let mut writer: Vec<u8> = Vec::new();
        let mut i: usize = 0;
        while i < WRITER_LENGTH
            invariant
                input@.len() == MESSAGE_SIZE,
                i <= WRITER_LENGTH,
                writer@ == input@.subrange(0, i as int),
            decreases WRITER_LENGTH - i,
        {
            writer.push(input[i]);
            proof {
                assert(writer@ =~= input@.subrange(0, i + 1));
            }
            i += 1;
        }

        let length: u8 = input[WRITER_LENGTH];

        let mut bytes: Vec<u8> = Vec::new();
        let mut j: usize = 0;
        while j < MESSAGE_LENGTH
            invariant
                input@.len() == MESSAGE_SIZE,
                writer@ == input@.subrange(0, WRITER_LENGTH as int),
                length == input@[WRITER_LENGTH as int],
                j <= MESSAGE_LENGTH,
                bytes@ == input@.subrange(33, 33 + j as int),
            decreases MESSAGE_LENGTH - j,
        {
            bytes.push(input[WRITER_LENGTH + 1 + j]);
            proof {
                assert(bytes@ =~= input@.subrange(33, 33 + (j + 1)));
            }
            j += 1;
        }

        // An 8-bit declared length can never exceed the 256-byte payload, so
        // this check cannot fire; it mirrors the fixed check order.
        if (length as usize) > MESSAGE_LENGTH {
            return Err(MessageError::MessageLengthTooLarge);
        }

        let mut k: usize = length as usize;
        while k < MESSAGE_LENGTH
            invariant
                input@.len() == MESSAGE_SIZE,
                writer@ == input@.subrange(0, WRITER_LENGTH as int),
                length == input@[WRITER_LENGTH as int],
                bytes@ == input@.subrange(33, MESSAGE_SIZE as int),
                bytes@.len() == MESSAGE_LENGTH,
                length <= k <= MESSAGE_LENGTH,
                forall|t: int| length <= t < k ==> bytes@[t] == 0,
            decreases MESSAGE_LENGTH - k,
        {
            if bytes[k] != 0 {
                proof {
                    assert(!padding_zero(input@.subrange(33, MESSAGE_SIZE as int), length)) by {
                        assert(bytes@[k as int] != 0);
                    }
                }
                return Err(MessageError::MessageLengthTooSmall);
            }
            k += 1;
        }

        if length == 0 {
            return Err(MessageError::MessageEmpty);
        }

        Ok(Message { writer, length, bytes })
    }

    /// Serialises the record into its 289-byte wire format.
    pub fn encode(&self) -> (r: Vec<u8>)
        requires
            self.wf(),
        ensures
            r@ == msg_encode(self@),
            r@.len() == MESSAGE_SIZE,
    {
        let mut out: Vec<u8> = Vec::new();
        let mut i: usize = 0;
        while i < WRITER_LENGTH
            invariant
                self.wf(),
                i <= WRITER_LENGTH,
                out@ == self.writer@.subrange(0, i as int),
            decreases WRITER_LENGTH - i,
        {
            out.push(self.writer[i]);
            proof {
                assert(out@ =~= self.writer@.subrange(0, i + 1));
            }
            i += 1;
        }
        proof {
            assert(out@ =~= self.writer@);
        }

        out.push(self.length);

        let mut j: usize = 0;
        while j < MESSAGE_LENGTH
            invariant
                self.wf(),
                j <= MESSAGE_LENGTH,
                out@ == self.writer@ + seq![self.length] + self.bytes@.subrange(0, j as int),
            decreases MESSAGE_LENGTH - j,
        {
            out.push(self.bytes[j]);
            proof {
                assert(out@ =~= self.writer@ + seq![self.length] + self.bytes@.subrange(
                    0,
                    j + 1,
                ));
            }
            j += 1;
        }
        proof {
            assert(out@ =~= msg_encode(self@));
        }
        out
    }
}

/// Mathematical model of the persisted ring.
#[verifier::ext_equal]
pub ghost struct BufferModel {
    pub queue_head: u32,
    pub messages: Seq<MessageModel>,
}

/// The ring holds exactly 128 well-formed slots and its head is in bounds.
pub open spec fn buffer_wf(b: BufferModel) -> bool {
    &&& b.queue_head < MESSAGE_HISTORY
    &&& b.messages.len() == MESSAGE_HISTORY
    &&& forall|i: int| 0 <= i < b.messages.len() ==> msg_wf(#[trigger] b.messages[i])
}

/// The head index encoded little-endian in the first four region bytes.
pub open spec fn head_of(region: Seq<u8>) -> int {
    region[0] + region[1] * 0x100 + region[2] * 0x10000 + region[3] * 0x1000000
}

/// The byte offset of slot `i` within the region.
pub open spec fn slot_offset(i: int) -> int {
    4 + i * MESSAGE_SIZE
}

/// The record stored in slot `i` of the region, fields read verbatim: stored
/// slots are not re-validated when the region is bound.
pub open spec fn slot_of(region: Seq<u8>, i: int) -> MessageModel {
    MessageModel {
        writer: region.subrange(slot_offset(i), slot_offset(i) + WRITER_LENGTH),
        length: region[slot_offset(i) + WRITER_LENGTH],
        bytes: region.subrange(slot_offset(i) + WRITER_LENGTH + 1, slot_offset(i + 1)),
    }
}

/// What binding an untrusted region yields: the ring it holds, or the error
/// that the first failing structural check raises.
pub open spec fn buffer_decode(region: Seq<u8>) -> Result<BufferModel, MessageError> {
    if region.len() != BUFFER_SIZE {
        Err(MessageError::MessageQueueAccountWrongSize)
    } else if head_of(region) >= MESSAGE_HISTORY {
        Err(MessageError::MessageQueueBad)
    } else {
        Ok(
            BufferModel {
                queue_head: head_of(region) as u32,
                messages: Seq::new(MESSAGE_HISTORY as nat, |i: int| slot_of(region, i)),
            },
        )
    }
}

/// The head value encoded as four little-endian bytes.
pub open spec fn head_bytes(h: u32) -> Seq<u8> {
    seq![
        (h % 0x100) as u8,
        ((h / 0x100) % 0x100) as u8,
        ((h / 0x10000) % 0x100) as u8,
        ((h / 0x1000000) % 0x100) as u8,
    ]
}

/// The slots laid out one record after another.
pub open spec fn slots_encode(slots: Seq<MessageModel>) -> Seq<u8>
    decreases slots.len(),
{
    if slots.len() == 0 {
        Seq::empty()
    } else {
        slots_encode(slots.drop_last()) + msg_encode(slots.last())
    }
}

/// Region layout of a ring: the head bytes, then the slots.
pub open spec fn buffer_encode(b: BufferModel) -> Seq<u8> {
    head_bytes(b.queue_head) + slots_encode(b.messages)
}

/// One overwrite-oldest append on the model: advance the head by one modulo
/// the capacity, then write the new record into the slot the head now names.
pub open spec fn spec_append(b: BufferModel, m: MessageModel) -> BufferModel {
    let next = ((b.queue_head + 1) % (MESSAGE_HISTORY as int)) as u32;
    BufferModel { queue_head: next, messages: b.messages.update(next as int, m) }
}

/// The ring of message slots, as decoded from its persisted region.
#[derive(Debug, PartialEq, Eq)]
pub struct MessageBuffer {
    /// Index of the slot holding the most recently appended message.
    pub queue_head: u32,
    /// The 128 message slots.
    pub messages: Vec<Message>,
}

impl View for MessageBuffer {
    type V = BufferModel;

    open spec fn view(&self) -> BufferModel {
        BufferModel {
            queue_head: self.queue_head,
            messages: self.messages@.map_values(|m: Message| m@),
        }
    }
}

/// Copies a byte vector element by element.
fn clone_bytes(v: &Vec<u8>) -> (r: Vec<u8>)
    ensures
        r@ == v@,
{
    let mut r: Vec<u8> = Vec::new();
    let mut i: usize = 0;
    while i < v.len()
        invariant
            i <= v@.len(),
            r@ == v@.subrange(0, i as int),
        decreases v@.len() - i,
    {
        r.push(v[i]);
        proof {
            assert(r@ =~= v@.subrange(0, i + 1));
        }
        i += 1;
    }
    proof {
        assert(r@ =~= v@);
    }
    r
}

/// Copies a message record field by field.
fn clone_message(m: &Message) -> (r: Message)
    ensures
        r@ == m@,
{
    Message { writer: clone_bytes(&m.writer), length: m.length, bytes: clone_bytes(&m.bytes) }
}

/// Reads the record stored in slot `i` of the region.
fn read_slot(input: &[u8], i: usize) -> (r: Message)
    requires
        input@.len() == BUFFER_SIZE,
        i < MESSAGE_HISTORY,
    ensures
        r@ == slot_of(input@, i as int),
        r.wf(),
{
    let base: usize = 4 + i * MESSAGE_SIZE;
    let mut writer: Vec<u8> = Vec::new();
    let mut t: usize = 0;
    while t < WRITER_LENGTH
        invariant
            input@.len() == BUFFER_SIZE,
            i < MESSAGE_HISTORY,
            base == slot_offset(i as int),
            t <= WRITER_LENGTH,
            writer@ == input@.subrange(base as int, base + t as int),
        decreases WRITER_LENGTH - t,
    {
        writer.push(input[base + t]);
        proof {
            assert(writer@ =~= input@.subrange(base as int, base + (t + 1)));
        }
        t += 1;
    }
    let length: u8 = input[base + WRITER_LENGTH];
    let mut bytes: Vec<u8> = Vec::new();
    let mut u: usize = 0;
    while u < MESSAGE_LENGTH
        invariant
            input@.len() == BUFFER_SIZE,
            i < MESSAGE_HISTORY,
            base == slot_offset(i as int),
            writer@ == input@.subrange(base as int, base + WRITER_LENGTH as int),
            length == input@[base + WRITER_LENGTH as int],
            u <= MESSAGE_LENGTH,
            bytes@ == input@.subrange(base + 33, base + 33 + u as int),
        decreases MESSAGE_LENGTH - u,
    {
        bytes.push(input[base + WRITER_LENGTH + 1 + u]);
        proof {
            assert(bytes@ =~= input@.subrange(base + 33, base + 33 + (u + 1)));
        }
        u += 1;
    }
    let r = Message { writer, length, bytes };
    proof {
        assert(slot_offset(i as int + 1) == base + 33 + MESSAGE_LENGTH);
        assert(r@ =~= slot_of(input@, i as int));
    }
    r
}

impl MessageBuffer {
    /// The slots are all present and well formed and the head is in bounds.
    pub open spec fn wf(&self) -> bool {
        buffer_wf(self@)
    }

    /// Binds a byte region to the ring layout, checking its size and that the
    /// stored head is within the capacity.
    pub fn unpack(input: &[u8]) -> (r: Result<MessageBuffer, MessageError>)
        ensures
            match r {
                Ok(b) => b.wf() && buffer_decode(input@) == Ok::<BufferModel, MessageError>(b@),
                Err(e) => buffer_decode(input@) == Err::<BufferModel, MessageError>(e),
            },
    {
        if input.len() != BUFFER_SIZE {
            return Err(MessageError::MessageQueueAccountWrongSize);
        }
        let head: u32 = input[0] as u32 + input[1] as u32 * 0x100 + input[2] as u32 * 0x10000
            + input[3] as u32 * 0x1000000;
        if head >= MESSAGE_HISTORY as u32 {
            return Err(MessageError::MessageQueueBad);
        }
        let mut messages: Vec<Message> = Vec::new();
        let mut i: usize = 0;
        while i < MESSAGE_HISTORY
            invariant
                input@.len() == BUFFER_SIZE,
                i <= MESSAGE_HISTORY,
                messages@.len() == i,
                forall|t: int|
                    0 <= t < i ==> (#[trigger] messages@[t])@ == slot_of(input@, t)
                        && messages@[t].wf(),
            decreases MESSAGE_HISTORY - i,
        {
            messages.push(read_slot(input, i));
            i += 1;
        }
        let b = MessageBuffer { queue_head: head, messages };
        proof {
            assert(b@.messages =~= Seq::new(MESSAGE_HISTORY as nat, |t: int| slot_of(input@, t)));
            assert(buffer_decode(input@) == Ok::<BufferModel, MessageError>(b@));
        }
        Ok(b)
    }

    /// Serialises the ring back into its region layout.
    pub fn pack(&self) -> (r: Vec<u8>)
        requires
            self.wf(),
        ensures
            r@ == buffer_encode(self@),
            r@.len() == BUFFER_SIZE,
    {
        let mut out: Vec<u8> = Vec::new();
        out.push((self.queue_head % 0x100) as u8);
        out.push(((self.queue_head / 0x100) % 0x100) as u8);
        out.push(((self.queue_head / 0x10000) % 0x100) as u8);
        out.push(((self.queue_head / 0x1000000) % 0x100) as u8);
        proof {
            assert(out@ =~= head_bytes(self@.queue_head));
            assert(self@.messages.subrange(0, 0) =~= Seq::<MessageModel>::empty());
        }
        let mut i: usize = 0;
        while i < MESSAGE_HISTORY
            invariant
                self.wf(),
                i <= MESSAGE_HISTORY,
                out@ == head_bytes(self@.queue_head) + slots_encode(
                    self@.messages.subrange(0, i as int),
                ),
                out@.len() == 4 + i * MESSAGE_SIZE,
            decreases MESSAGE_HISTORY - i,
        {
            proof {
                assert(self.messages@[i as int]@ == self@.messages[i as int]);
                assert(msg_wf(self@.messages[i as int]));
            }
            let mut enc = self.messages[i].encode();
            out.append(&mut enc);
            proof {
                lemma_slots_encode_step(self@.messages, i as int);
            }
            i += 1;
        }
        proof {
            assert(self@.messages.subrange(0, MESSAGE_HISTORY as int) =~= self@.messages);
        }
        out
    }

    /// Appends a message, overwriting the slot after the current head.
    pub fn append(&mut self, message: &Message)
        requires
            old(self).wf(),
            message.wf(),
        ensures
            final(self)@ == spec_append(old(self)@, message@),
            final(self).wf(),
    {
        let next_head = (self.queue_head + 1) % (MESSAGE_HISTORY as u32);
        self.messages.set(next_head as usize, clone_message(message));
        self.queue_head = next_head;
        proof {
            assert(self@.messages =~= spec_append(old(self)@, message@).messages);
        }
    }
}

/// Round trip: a well-formed record with a declared length of at least one
/// and zero padding past it decodes from its own encoding unchanged.
pub proof fn lemma_message_round_trip(m: MessageModel)
    requires
        msg_wf(m),
        m.length >= 1,
        padding_zero(m.bytes, m.length),
    ensures
        msg_decode(msg_encode(m)) == Ok::<MessageModel, MessageError>(m),
{
    let enc = msg_encode(m);
    assert(enc.len() == MESSAGE_SIZE);
    assert(enc[WRITER_LENGTH as int] == m.length);
    assert(enc.subrange(0, WRITER_LENGTH as int) =~= m.writer);
    assert(enc.subrange(33, MESSAGE_SIZE as int) =~= m.bytes);
    assert(msg_decode(enc) == Ok::<MessageModel, MessageError>(m));
}

/// Size enforcement: decoding never succeeds on an input that is not exactly
/// one encoded record long; a long input is rejected as too large and a short
/// one as too small.
pub proof fn lemma_size_enforced(input: Seq<u8>)
    requires
        input.len() != MESSAGE_SIZE,
    ensures
        input.len() > MESSAGE_SIZE ==> msg_decode(input) == Err::<MessageModel, MessageError>(
            MessageError::MessageTooLarge,
        ),
        input.len() < MESSAGE_SIZE ==> msg_decode(input) == Err::<MessageModel, MessageError>(
            MessageError::MessageTooSmall,
        ),
{
}

/// Empty rejection: a zero declared length never decodes, whatever the
/// payload holds.
pub proof fn lemma_empty_rejected(input: Seq<u8>)
    requires
        input.len() == MESSAGE_SIZE,
        input[WRITER_LENGTH as int] == 0,
    ensures
        msg_decode(input) is Err,
{
}

/// Bound rejection: a region of the right size whose stored head is at or
/// past the capacity never binds.
pub proof fn lemma_bad_head_rejected(region: Seq<u8>)
    requires
        region.len() == BUFFER_SIZE,
        head_of(region) >= MESSAGE_HISTORY,
    ensures
        buffer_decode(region) == Err::<BufferModel, MessageError>(MessageError::MessageQueueBad),
{
}

/// The ring after appending each record of `msgs` in order.
pub open spec fn append_all(b: BufferModel, msgs: Seq<MessageModel>) -> BufferModel
    decreases msgs.len(),
{
    if msgs.len() == 0 {
        b
    } else {
        spec_append(append_all(b, msgs.drop_last()), msgs.last())
    }
}

/// Ring progression: starting from head 0, `k` sequential appends (`k` at
/// most the capacity) leave the head at `k % 128`; the `j`-th appended record
/// (1-based) sits in slot `j % 128`, so for `k < 128` slot `head` holds the
/// `k`-th record; slots never written keep their prior contents.  In
/// particular slot 0 is written only by the 128th append, which wraps the
/// head back to 0.
pub proof fn lemma_ring_progression(b: BufferModel, msgs: Seq<MessageModel>)
    requires
        b.queue_head == 0,
        b.messages.len() == MESSAGE_HISTORY,
        msgs.len() <= MESSAGE_HISTORY,
    ensures
        append_all(b, msgs).messages.len() == MESSAGE_HISTORY,
        append_all(b, msgs).queue_head == (msgs.len() as int) % (MESSAGE_HISTORY as int),
        forall|j: int|
            1 <= j <= msgs.len() && j < MESSAGE_HISTORY ==> append_all(b, msgs).messages[j]
                == msgs[j - 1],
        msgs.len() == MESSAGE_HISTORY ==> append_all(b, msgs).messages[0] == msgs[
            MESSAGE_HISTORY - 1
        ],
        forall|j: int|
            msgs.len() < j < MESSAGE_HISTORY ==> append_all(b, msgs).messages[j] == b.messages[j],
        msgs.len() < MESSAGE_HISTORY ==> append_all(b, msgs).messages[0] == b.messages[0],
    decreases msgs.len(),
{
    if msgs.len() > 0 {
        let k = msgs.len() as int;
        let prev = append_all(b, msgs.drop_last());
        lemma_ring_progression(b, msgs.drop_last());
        assert(prev.queue_head == k - 1);
        assert(append_all(b, msgs) == spec_append(prev, msgs.last()));
        assert(spec_append(prev, msgs.last()).messages == prev.messages.update(
            ((k % (MESSAGE_HISTORY as int))) as int,
            msgs[k - 1],
        ));
    }
}

/// Wraparound: after exactly 128 appends from head 0 the head is back at 0
/// and the 128th record sits in slot 0; a 129th append then overwrites slot
/// 1, not slot 0.
pub proof fn lemma_ring_wraparound(b: BufferModel, msgs: Seq<MessageModel>, m: MessageModel)
    requires
        b.queue_head == 0,
        b.messages.len() == MESSAGE_HISTORY,
        msgs.len() == MESSAGE_HISTORY,
    ensures
        append_all(b, msgs).queue_head == 0,
        append_all(b, msgs).messages[0] == msgs[MESSAGE_HISTORY - 1],
        forall|j: int|
            1 <= j < MESSAGE_HISTORY ==> append_all(b, msgs).messages[j] == msgs[j - 1],
        spec_append(append_all(b, msgs), m).queue_head == 1,
        spec_append(append_all(b, msgs), m).messages == append_all(b, msgs).messages.update(1, m),
{
    lemma_ring_progression(b, msgs);
}

/// Encoding one more slot extends the slot bytes by that record's encoding.
proof fn lemma_slots_encode_step(slots: Seq<MessageModel>, i: int)
    requires
        0 <= i < slots.len(),
    ensures
        slots_encode(slots.subrange(0, i + 1)) == slots_encode(slots.subrange(0, i)) + msg_encode(
            slots[i],
        ),
{
    let front = slots.subrange(0, i + 1);
    assert(front.drop_last() =~= slots.subrange(0, i));
    assert(front.last() == slots[i]);
}

} // verus!
