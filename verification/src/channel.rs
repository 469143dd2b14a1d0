//! Bounded in-kernel message channel: a fixed-capacity FIFO ring of
//! fixed-size datagrams.
//!
//! A channel holds at most [`MAX_MESSAGES`] messages of at most
//! [`MAX_PAYLOAD`] bytes each. Sends append at the tail, receives take from
//! the head; both move modulo the capacity. The channel's contents are
//! modelled as the sequence of queued payloads, oldest first.

use vstd::prelude::*;
use vstd::arithmetic::div_mod::{lemma_mod_add_multiples_vanish, lemma_small_mod};

verus! {

/// Capacity of a channel, in messages.
pub const MAX_MESSAGES: usize = 16;

/// Largest payload one message can carry, in bytes.
pub const MAX_PAYLOAD: usize = 64;

/// Errors a send can return.
#[derive(Debug, Clone, Copy, PartialEq, Eq, Structural)]
pub enum SendError {
    /// The queue already holds `MAX_MESSAGES` messages.
    Full,
    /// The payload exceeds `MAX_PAYLOAD` bytes.
    Oversized,
    /// No endpoint is registered to receive the message.
    Unroutable,
}

/// Errors a receive can return.
#[derive(Debug, Clone, Copy, PartialEq, Eq, Structural)]
pub enum ReceiveError {
    /// The queue holds no message.
    Empty,
}

/// One fixed-size datagram: a length byte and a payload buffer.
#[derive(Clone)]
pub struct Message {
    len: u8,
    payload: Vec<u8>,
}

impl Message {
    /// The bytes the message carries: the first `len` bytes of the payload
    /// buffer.
    pub closed spec fn bytes(&self) -> Seq<u8> {
        self.payload@.take(self.len as int)
    }

    /// The payload buffer spans `MAX_PAYLOAD` bytes of which the first
    /// `len` are in use.
    pub closed spec fn wf(&self) -> bool {
        &&& self.payload@.len() == MAX_PAYLOAD
        &&& self.len <= MAX_PAYLOAD
    }

    /// A well-formed message carries at most `MAX_PAYLOAD` bytes.
    pub broadcast proof fn lemma_bytes_len(&self)
        requires
            #[trigger] self.wf(),
        ensures
            self.bytes().len() <= MAX_PAYLOAD,
    {
    }

    /// Creates a message carrying no bytes.
    pub fn empty() -> (r: Message)
        ensures
            r.wf(),
            r.bytes() == Seq::<u8>::empty(),
    {
        let mut payload: Vec<u8> = Vec::new();
        let mut i: usize = 0;
        while i < MAX_PAYLOAD
            invariant
                i <= MAX_PAYLOAD,
                payload@.len() == i,
            decreases MAX_PAYLOAD - i,
        {
            payload.push(0);
            i += 1;
        }
        let r = Message { len: 0, payload };
        proof {
            assert(r.bytes() =~= Seq::<u8>::empty());
        }
        r
    }

    /// Builds a message from a byte slice; a slice longer than
    /// `MAX_PAYLOAD` is refused as `Oversized`.
    pub fn from_slice(bytes: &[u8]) -> (r: Result<Message, SendError>)
        ensures
            match r {
                Ok(m) => bytes@.len() <= MAX_PAYLOAD && m.wf() && m.bytes() == bytes@,
                Err(e) => e == SendError::Oversized && bytes@.len() > MAX_PAYLOAD,
            },
    {
        if bytes.len() > MAX_PAYLOAD {
            return Err(SendError::Oversized);
        }
        let mut message = Message::empty();
        let mut idx: usize = 0;
        while idx < bytes.len()
            invariant
                idx <= bytes@.len() <= MAX_PAYLOAD,
                message.payload@.len() == MAX_PAYLOAD,
                forall|j: int| 0 <= j < idx ==> message.payload@[j] == bytes@[j],
            decreases bytes@.len() - idx,
        {
            let b = bytes[idx];
            message.payload.set(idx, b);
            idx += 1;
        }
        message.len = bytes.len() as u8;
        proof {
            assert(message.bytes() =~= bytes@);
        }
        Ok(message)
    }

    /// Copies the message's bytes into the front of `buffer`, truncating to
    /// the buffer's length, and returns the number of bytes written. Bytes
    /// of the buffer past the copied prefix keep their old values.
    pub fn write_into(&self, buffer: &mut Vec<u8>) -> (n: usize)
        requires
            self.wf(),
        ensures
            n == vstd::math::min(self.bytes().len() as int, old(buffer)@.len() as int),
            final(buffer)@.len() == old(buffer)@.len(),
            final(buffer)@ =~= self.bytes().take(n as int) + old(buffer)@.skip(n as int),
    {
        let needed = self.len as usize;
        let copy_len = if needed < buffer.len() {
            needed
        } else {
            buffer.len()
        };
        let mut idx: usize = 0;
        while idx < copy_len
            invariant
                self.wf(),
                copy_len <= self.len,
                copy_len <= old(buffer)@.len(),
                idx <= copy_len,
                buffer@.len() == old(buffer)@.len(),
                forall|j: int| 0 <= j < idx ==> buffer@[j] == self.bytes()[j],
                forall|j: int| idx <= j < buffer@.len() ==> buffer@[j] == old(buffer)@[j],
            decreases copy_len - idx,
        {
            let b = self.payload[idx];
            buffer.set(idx, b);
            idx += 1;
        }
        copy_len
    }
}

/// The contents after a send: the payload appended at the tail.
pub open spec fn spec_send(contents: Seq<Seq<u8>>, payload: Seq<u8>) -> Seq<Seq<u8>> {
    contents.push(payload)
}

/// The contents and delivered payload of a receive from a non-empty queue:
/// the head payload leaves.
pub open spec fn spec_receive(contents: Seq<Seq<u8>>) -> (Seq<u8>, Seq<Seq<u8>>) {
    (contents.first(), contents.drop_first())
}

#[derive(Clone)]
struct QueueSlot {
    message: Message,
    used: bool,
}

struct MessageQueue {
    slots: Vec<QueueSlot>,
    head: usize,
    tail: usize,
    len: usize,
}

proof fn lemma_ring_wrap(x: int)
    requires
        0 <= x < 2 * MAX_MESSAGES,
    ensures
        x % (MAX_MESSAGES as int) == (if x < MAX_MESSAGES {
            x
        } else {
            x - MAX_MESSAGES
        }),
{
    let m = MAX_MESSAGES as int;
    if x < m {
        lemma_small_mod(x as nat, m as nat);
    } else {
        lemma_mod_add_multiples_vanish(x - m, m);
        lemma_small_mod((x - m) as nat, m as nat);
    }
}

impl MessageQueue {
    /// Ring slot holding the `k`-th queued message, counted from the head.
    spec fn ring_idx(&self, k: int) -> int {
        (self.head + k) % (MAX_MESSAGES as int)
    }

    /// The queued payloads, oldest first.
    spec fn contents(&self) -> Seq<Seq<u8>> {
        Seq::new(self.len as nat, |k: int| self.slots@[self.ring_idx(k)].message.bytes())
    }

    spec fn wf(&self) -> bool {
        &&& self.slots@.len() == MAX_MESSAGES
        &&& self.head < MAX_MESSAGES
        &&& self.tail < MAX_MESSAGES
        &&& self.len <= MAX_MESSAGES
        &&& self.tail == (self.head + self.len) % (MAX_MESSAGES as int)
        &&& forall|i: int| 0 <= i < MAX_MESSAGES ==> (#[trigger] self.slots@[i]).message.wf()
    }

    fn new() -> (r: MessageQueue)
        ensures
            r.wf(),
            r.contents() == Seq::<Seq<u8>>::empty(),
    {
        let mut slots: Vec<QueueSlot> = Vec::new();
        let mut i: usize = 0;
        while i < MAX_MESSAGES
            invariant
                i <= MAX_MESSAGES,
                slots@.len() == i,
                forall|j: int| 0 <= j < i ==> (#[trigger] slots@[j]).message.wf(),
            decreases MAX_MESSAGES - i,
        {
            slots.push(QueueSlot { message: Message::empty(), used: false });
            i += 1;
        }
        let r = MessageQueue { slots, head: 0, tail: 0, len: 0 };
        proof {
            lemma_small_mod(0nat, MAX_MESSAGES as nat);
            assert(r.contents() =~= Seq::<Seq<u8>>::empty());
        }
        r
    }

    fn push(&mut self, message: Message) -> (r: Result<(), SendError>)
        requires
            old(self).wf(),
            message.wf(),
        ensures
            final(self).wf(),
            match r {
                Ok(()) => {
                    &&& old(self).contents().len() < MAX_MESSAGES
                    &&& final(self).contents() == spec_send(old(self).contents(), message.bytes())
                },
                Err(e) => {
                    &&& e == SendError::Full
                    &&& old(self).contents().len() == MAX_MESSAGES
                    &&& *final(self) == *old(self)
                },
            },
    {
        if self.len == MAX_MESSAGES {
            return Err(SendError::Full);
        }
        let ghost prior = *self;
        let tail = self.tail;
        self.slots.set(tail, QueueSlot { message, used: true });
        self.tail = (tail + 1) % MAX_MESSAGES;
        self.len = self.len + 1;
        proof {
            let m = MAX_MESSAGES as int;
            lemma_ring_wrap(prior.head + prior.len);
            lemma_ring_wrap(prior.head + prior.len + 1);
            lemma_ring_wrap(prior.tail + 1);
            assert(self.tail == (self.head + self.len) % m);
            assert forall|k: int| 0 <= k < prior.len implies prior.ring_idx(k) != prior.tail by {
                lemma_ring_wrap(prior.head + k);
            }
            assert forall|k: int| 0 <= k < self.len implies #[trigger] self.contents()[k]
                == spec_send(prior.contents(), message.bytes())[k] by {
                lemma_ring_wrap(prior.head + k);
                if k < prior.len {
                    assert(self.slots@[self.ring_idx(k)] == prior.slots@[prior.ring_idx(k)]);
                } else {
                    assert(self.ring_idx(k) == prior.tail);
                }
            }
            assert(self.contents() =~= spec_send(prior.contents(), message.bytes()));
        }
        Ok(())
    }

    fn pop(&mut self, buffer: &mut Vec<u8>) -> (r: Result<usize, ReceiveError>)
        requires
            old(self).wf(),
        ensures
            final(self).wf(),
            match r {
                Ok(n) => {
                    &&& old(self).contents().len() > 0
                    &&& n == vstd::math::min(
                        spec_receive(old(self).contents()).0.len() as int,
                        old(buffer)@.len() as int,
                    )
                    &&& final(buffer)@.len() == old(buffer)@.len()
                    &&& final(buffer)@ =~= spec_receive(old(self).contents()).0.take(n as int)
                        + old(buffer)@.skip(n as int)
                    &&& final(self).contents() == spec_receive(old(self).contents()).1
                },
                Err(e) => {
                    &&& e == ReceiveError::Empty
                    &&& old(self).contents().len() == 0
                    &&& *final(self) == *old(self)
                    &&& final(buffer)@ == old(buffer)@
                },
            },
    {
        if self.len == 0 {
            return Err(ReceiveError::Empty);
        }
        let ghost prior = *self;
        let head = self.head;
        let n = self.slots[head].message.write_into(buffer);
        self.slots.set(head, QueueSlot { message: Message::empty(), used: false });
        self.head = (head + 1) % MAX_MESSAGES;
        self.len = self.len - 1;
        proof {
            let m = MAX_MESSAGES as int;
            lemma_ring_wrap(prior.head + 0);
            lemma_ring_wrap(prior.head + 1);
            lemma_ring_wrap(prior.head + prior.len);
            assert(prior.ring_idx(0) == prior.head);
            assert(self.tail == (self.head + self.len) % m) by {
                lemma_ring_wrap(prior.head + prior.len);
                if prior.head + 1 < m {
                    lemma_mod_add_multiples_vanish(prior.head + 1 + self.len - m, m);
                    lemma_ring_wrap(prior.head + 1 + self.len);
                } else {
                    lemma_mod_add_multiples_vanish(prior.head + 1 - m + self.len, m);
                    lemma_ring_wrap(prior.head + 1 - m + self.len);
                }
            }
            assert forall|k: int| 0 <= k < self.len implies #[trigger] self.contents()[k]
                == spec_receive(prior.contents()).1[k] by {
                lemma_ring_wrap(prior.head + k + 1);
                lemma_ring_wrap(self.head + k);
                assert(self.ring_idx(k) == prior.ring_idx(k + 1));
                assert(prior.ring_idx(k + 1) != prior.head);
                assert(self.slots@[self.ring_idx(k)] == prior.slots@[prior.ring_idx(k + 1)]);
            }
            assert(self.contents() =~= spec_receive(prior.contents()).1);
        }
        Ok(n)
    }

    fn reset(&mut self)
        ensures
            final(self).wf(),
            final(self).contents() == Seq::<Seq<u8>>::empty(),
    {
        let fresh = MessageQueue::new();
        *self = fresh;
    }
}

/// A bounded FIFO datagram channel.
pub struct Channel {
    queue: MessageQueue,
}

impl Channel {
    /// The queued payloads, oldest first.
    pub closed spec fn contents(&self) -> Seq<Seq<u8>> {
        self.queue.contents()
    }

    /// Structural invariant of the ring.
    pub closed spec fn wf(&self) -> bool {
        self.queue.wf()
    }

    /// A well-formed channel holds at most `MAX_MESSAGES` messages.
    pub broadcast proof fn lemma_contents_len(&self)
        requires
            #[trigger] self.wf(),
        ensures
            self.contents().len() <= MAX_MESSAGES,
    {
    }

    /// Creates an empty channel.
    pub fn new() -> (r: Channel)
        ensures
            r.wf(),
            r.contents() == Seq::<Seq<u8>>::empty(),
    {
        Channel { queue: MessageQueue::new() }
    }

    /// Sends a datagram: refuses payloads over [`MAX_PAYLOAD`] bytes as
    /// `Oversized` and sends into a full queue as `Full`; otherwise appends
    /// the payload at the tail.
    pub fn send(&mut self, bytes: &[u8]) -> (r: Result<(), SendError>)
        requires
            old(self).wf(),
        ensures
            final(self).wf(),
            bytes@.len() > MAX_PAYLOAD ==> r == Err::<(), SendError>(SendError::Oversized)
                && *final(self) == *old(self),
            bytes@.len() <= MAX_PAYLOAD && old(self).contents().len() == MAX_MESSAGES ==> r == Err::<
                (),
                SendError,
            >(SendError::Full) && *final(self) == *old(self),
            bytes@.len() <= MAX_PAYLOAD && old(self).contents().len() < MAX_MESSAGES ==> r is Ok
                && final(self).contents() == spec_send(old(self).contents(), bytes@),
    {
        let message = match Message::from_slice(bytes) {
            Ok(m) => m,
            Err(e) => {
                return Err(e);
            },
        };
        self.queue.push(message)
    }

    /// Receives the oldest datagram into `buffer`, truncated to the
    /// buffer's length; returns `Empty` and changes nothing when the queue
    /// holds no message.
    pub fn receive(&mut self, buffer: &mut Vec<u8>) -> (r: Result<usize, ReceiveError>)
        requires
            old(self).wf(),
        ensures
            final(self).wf(),
            match r {
                Ok(n) => {
                    &&& old(self).contents().len() > 0
                    &&& n == vstd::math::min(
                        spec_receive(old(self).contents()).0.len() as int,
                        old(buffer)@.len() as int,
                    )
                    &&& final(buffer)@.len() == old(buffer)@.len()
                    &&& final(buffer)@ =~= spec_receive(old(self).contents()).0.take(n as int)
                        + old(buffer)@.skip(n as int)
                    &&& final(self).contents() == spec_receive(old(self).contents()).1
                },
                Err(e) => {
                    &&& e == ReceiveError::Empty
                    &&& old(self).contents().len() == 0
                    &&& *final(self) == *old(self)
                    &&& final(buffer)@ == old(buffer)@
                },
            },
    {
        self.queue.pop(buffer)
    }

    /// Drops every queued message and clears every slot.
    pub fn reset(&mut self)
        ensures
            final(self).wf(),
            final(self).contents() == Seq::<Seq<u8>>::empty(),
    {
        self.queue.reset();
    }
}

impl Default for Channel {
    /// An empty channel.
    fn default() -> (r: Channel)
        ensures
            r.wf(),
            r.contents() == Seq::<Seq<u8>>::empty(),
    {
        Channel::new()
    }
}

/// Performs the global IPC initialization required before the scheduler
/// starts: the shared channel starts out empty.
pub fn init(channel: &mut Channel)
    ensures
        final(channel).wf(),
        final(channel).contents() == Seq::<Seq<u8>>::empty(),
{
    channel.reset();
}

/// The contents of a channel that started empty and took the sends of
/// `ms` in order, none failing.
pub open spec fn sent_contents(ms: Seq<Seq<u8>>) -> Seq<Seq<u8>>
    decreases ms.len(),
{
    if ms.len() == 0 {
        Seq::empty()
    } else {
        spec_send(sent_contents(ms.drop_last()), ms.last())
    }
}

/// The payloads that draining a queue by repeated receives delivers, in
/// delivery order.
pub open spec fn drained_payloads(contents: Seq<Seq<u8>>) -> Seq<Seq<u8>>
    decreases contents.len(),
{
    if contents.len() == 0 {
        Seq::empty()
    } else {
        seq![spec_receive(contents).0] + drained_payloads(spec_receive(contents).1)
    }
}

/// Channel FIFO: for any interleaving without overflow, receives deliver
/// payloads in send order. Sends append at the tail ([`spec_send`]) and
/// receives take from the head ([`spec_receive`]), so the queue's contents
/// are always the sent-but-undelivered payloads in send order, and draining
/// a channel that took the sends of `ms` delivers exactly `ms`.
pub proof fn lemma_channel_fifo(ms: Seq<Seq<u8>>)
    ensures
        sent_contents(ms) == ms,
        drained_payloads(sent_contents(ms)) == ms,
    decreases ms.len(),
{
    if ms.len() == 0 {
        assert(sent_contents(ms) =~= ms);
        assert(drained_payloads(ms) =~= ms);
    } else {
        lemma_channel_fifo(ms.drop_last());
        assert(sent_contents(ms) =~= ms);
        lemma_drained_payloads_identity(ms);
    }
}

proof fn lemma_drained_payloads_identity(contents: Seq<Seq<u8>>)
    ensures
        drained_payloads(contents) == contents,
    decreases contents.len(),
{
    if contents.len() == 0 {
        assert(drained_payloads(contents) =~= contents);
    } else {
        lemma_drained_payloads_identity(contents.drop_first());
        assert(drained_payloads(contents) =~= contents);
    }
}

} // verus!
