//! The rendezvous layer of the message gateway. Each (channel, record)
//! key owns one buffer slot that is either vacant, holds an outstanding
//! receive request, or holds a payload that arrived early. A request
//! meeting a buffered payload, or a message meeting a parked request,
//! consumes the slot and delivers exactly once; a duplicate request or a
//! duplicate message for an occupied slot is a fatal protocol error.

use std::collections::HashMap;

use vstd::prelude::*;

use crate::error::Error;
use crate::role::Role;

verus! {

broadcast use vstd::std_specs::hash::group_hash_axioms;

/// A message sent between helpers: a value with a fixed-width, exact
/// byte encoding. Decoding an encoding gives the value back; every
/// decoded value is well formed.
pub trait Message: Sized {
    spec fn size_spec() -> nat;

    spec fn m_wf(self) -> bool;

    spec fn encode_spec(self) -> Seq<u8>;

    spec fn decode_spec(s: Seq<u8>) -> Self;

    proof fn lemma_size()
        ensures
            Self::size_spec() >= 1,
    ;

    /// Encodings have the fixed width and decode to the encoded value.
    proof fn lemma_encode(self)
        requires
            self.m_wf(),
        ensures
            self.encode_spec().len() == Self::size_spec(),
            Self::decode_spec(self.encode_spec()) == self,
    ;

    proof fn lemma_decode(s: Seq<u8>)
        requires
            s.len() == Self::size_spec(),
        ensures
            Self::decode_spec(s).m_wf(),
    ;

    fn size() -> (r: usize)
        ensures
            r as nat == Self::size_spec(),
    ;

    /// Appends this value's encoding to `out`.
    fn write_bytes(&self, out: &mut Vec<u8>)
        requires
            self.m_wf(),
        ensures
            final(out)@ == old(out)@ + self.encode_spec(),
    ;

    fn read_bytes(buf: &[u8]) -> (r: Self)
        requires
            buf@.len() == Self::size_spec(),
        ensures
            r == Self::decode_spec(buf@),
    ;
}

/// One slot of the rendezvous buffer.
pub enum BufItem<S> {
    /// An outstanding request to receive: holds the delivery sink.
    Requested(S),
    /// A payload that arrived before its request.
    Received(Vec<u8>),
}

/// A message arriving from a peer: the record it belongs to and its
/// payload bytes.
pub struct MessageEnvelope {
    pub record_id: u32,
    pub payload: Vec<u8>,
}

/// A channel is addressed by the peer helper and the step the exchange
/// belongs to; both take part in equality.
#[derive(Clone, Copy, PartialEq, Eq, Structural, Debug, Hash)]
pub struct ChannelId {
    pub peer: Role,
    pub step_id: u16,
}

impl ChannelId {
    pub open spec fn spec_encode(self) -> u64 {
        (self.peer.spec_index() * 0x10000 + self.step_id) as u64
    }

    /// The dense numeric key of this channel.
    pub fn encode(self) -> (r: u64)
        ensures
            r == self.spec_encode(),
    {
        (self.peer.as_index() as u64) * 0x10000 + (self.step_id as u64)
    }
}

/// Distinct channels have distinct numeric keys.
pub proof fn lemma_channel_key_injective(a: ChannelId, b: ChannelId)
    requires
        a.spec_encode() == b.spec_encode(),
    ensures
        a == b,
{
    assert(a.peer.spec_index() == b.peer.spec_index() && a.step_id == b.step_id) by (nonlinear_arith)
        requires
            a.peer.spec_index() * 0x10000 + a.step_id == b.peer.spec_index() * 0x10000 + b.step_id,
            a.peer.spec_index() < 3,
            b.peer.spec_index() < 3,
            a.step_id < 0x10000,
            b.step_id < 0x10000,
    ;
}

/// Whether a receive request for `rec` hits a fatal duplicate: one is
/// already outstanding.
pub open spec fn request_fatal<S>(m: Map<u32, BufItem<S>>, rec: u32) -> bool {
    m.contains_key(rec) && m[rec] is Requested
}

/// What a receive request for `rec` delivers at once: the buffered
/// payload, if one is waiting.
pub open spec fn request_delivery<S>(
    m: Map<u32, BufItem<S>>,
    rec: u32,
    sender: S,
) -> Option<(S, Vec<u8>)> {
    if m.contains_key(rec) {
        match m[rec] {
            BufItem::Received(p) => Some((sender, p)),
            BufItem::Requested(_) => None,
        }
    } else {
        None
    }
}

/// The buffer after a receive request for `rec`: a waiting payload is
/// consumed, a vacant slot parks the request, a fatal duplicate leaves
/// the buffer as it stands.
pub open spec fn slot_after_request<S>(
    m: Map<u32, BufItem<S>>,
    rec: u32,
    sender: S,
) -> Map<u32, BufItem<S>> {
    if m.contains_key(rec) {
        match m[rec] {
            BufItem::Received(_) => m.remove(rec),
            BufItem::Requested(_) => m,
        }
    } else {
        m.insert(rec, BufItem::Requested(sender))
    }
}

/// Whether a message for `rec` hits a fatal duplicate: its payload is
/// already buffered.
pub open spec fn message_fatal<S>(m: Map<u32, BufItem<S>>, rec: u32) -> bool {
    m.contains_key(rec) && m[rec] is Received
}

/// What a message for `rec` delivers at once: the payload to the parked
/// sink, if a request is waiting.
pub open spec fn message_delivery<S>(
    m: Map<u32, BufItem<S>>,
    rec: u32,
    payload: Vec<u8>,
) -> Option<(S, Vec<u8>)> {
    if m.contains_key(rec) {
        match m[rec] {
            BufItem::Requested(s) => Some((s, payload)),
            BufItem::Received(_) => None,
        }
    } else {
        None
    }
}

/// The buffer after a message for `rec`: a parked request is consumed, a
/// vacant slot buffers the payload, a fatal duplicate leaves the buffer
/// as it stands.
pub open spec fn slot_after_message<S>(
    m: Map<u32, BufItem<S>>,
    rec: u32,
    payload: Vec<u8>,
) -> Map<u32, BufItem<S>> {
    if m.contains_key(rec) {
        match m[rec] {
            BufItem::Requested(_) => m.remove(rec),
            BufItem::Received(_) => m,
        }
    } else {
        m.insert(rec, BufItem::Received(payload))
    }
}

/// The rendezvous buffer of one channel: record id to slot.
pub struct MessageBuffer<S> {
    buf: HashMap<u32, BufItem<S>>,
}

impl<S> MessageBuffer<S> {
    pub closed spec fn slots(self) -> Map<u32, BufItem<S>> {
        self.buf@
    }

    pub fn new() -> (r: Self)
        ensures
            r.slots() == Map::<u32, BufItem<S>>::empty(),
    {
        MessageBuffer { buf: HashMap::new() }
    }

    pub fn is_empty(&self) -> (r: bool)
        ensures
            r == self.slots().is_empty(),
    {
        self.buf.is_empty()
    }

    /// Processes a request to receive the message with the given record
    /// id: delivers a waiting payload at once, parks the sink in a vacant
    /// slot, and reports a second outstanding request as fatal, leaving
    /// the buffer unchanged.
    pub fn receive_request(&mut self, record_id: u32, sender: S) -> (r: Result<
        Option<(S, Vec<u8>)>,
        Error,
    >)
        ensures
            final(self).slots() == slot_after_request(old(self).slots(), record_id, sender),
            request_fatal(old(self).slots(), record_id) ==> r == Err::<Option<(S, Vec<u8>)>, Error>(
                Error::DuplicateReceive { record_id },
            ),
            !request_fatal(old(self).slots(), record_id) ==> r == Ok::<Option<(S, Vec<u8>)>, Error>(
                request_delivery(old(self).slots(), record_id, sender),
            ),
    {
        match self.buf.remove(&record_id) {
            Some(BufItem::Received(payload)) => {
                proof {
                    assert(self.buf@ =~= old(self).slots().remove(record_id));
                }
                Ok(Some((sender, payload)))
            },
            Some(BufItem::Requested(prev)) => {
                self.buf.insert(record_id, BufItem::Requested(prev));
                proof {
                    assert(self.buf@ =~= old(self).slots());
                }
                Err(Error::DuplicateReceive { record_id })
            },
            None => {
                self.buf.insert(record_id, BufItem::Requested(sender));
                proof {
                    assert(self.buf@ =~= old(self).slots().insert(
                        record_id,
                        BufItem::Requested(sender),
                    ));
                }
                Ok(None)
            },
        }
    }

    /// Processes a message that has arrived for the given record id:
    /// delivers it to a parked request at once, buffers it in a vacant
    /// slot, and reports a second message for a buffered one as fatal,
    /// leaving the buffer unchanged.
    pub fn receive_message(&mut self, msg: MessageEnvelope) -> (r: Result<
        Option<(S, Vec<u8>)>,
        Error,
    >)
        ensures
            final(self).slots() == slot_after_message(
                old(self).slots(),
                msg.record_id,
                msg.payload,
            ),
            message_fatal(old(self).slots(), msg.record_id) ==> r == Err::<
                Option<(S, Vec<u8>)>,
                Error,
            >(Error::DuplicateMessage { record_id: msg.record_id }),
            !message_fatal(old(self).slots(), msg.record_id) ==> r == Ok::<
                Option<(S, Vec<u8>)>,
                Error,
            >(message_delivery(old(self).slots(), msg.record_id, msg.payload)),
    {
        let MessageEnvelope { record_id, payload } = msg;
        match self.buf.remove(&record_id) {
            Some(BufItem::Requested(s)) => {
                proof {
                    assert(self.buf@ =~= old(self).slots().remove(record_id));
                }
                Ok(Some((s, payload)))
            },
            Some(BufItem::Received(prev)) => {
                self.buf.insert(record_id, BufItem::Received(prev));
                proof {
                    assert(self.buf@ =~= old(self).slots());
                }
                Err(Error::DuplicateMessage { record_id })
            },
            None => {
                self.buf.insert(record_id, BufItem::Received(payload));
                proof {
                    assert(self.buf@ =~= old(self).slots().insert(
                        record_id,
                        BufItem::Received(payload),
                    ));
                }
                Ok(None)
            },
        }
    }
}

/// A parked request meeting its message: starting from a vacant slot, a
/// receive request followed by the matching message delivers the payload
/// to that request's sink, and the buffer returns to its prior state.
pub proof fn lemma_rendezvous_request_first<S>(
    m: Map<u32, BufItem<S>>,
    rec: u32,
    sender: S,
    payload: Vec<u8>,
)
    requires
        !m.contains_key(rec),
    ensures
        !request_fatal(m, rec),
        ({
            let m1 = slot_after_request(m, rec, sender);
            &&& !message_fatal(m1, rec)
            &&& message_delivery(m1, rec, payload) == Some((sender, payload))
            &&& slot_after_message(m1, rec, payload) =~= m
        }),
{
    let m1 = slot_after_request(m, rec, sender);
    assert(m1 == m.insert(rec, BufItem::Requested(sender)));
    assert(m1.remove(rec) =~= m);
}

/// A buffered payload meeting its request: starting from a vacant slot, a
/// message followed by the matching receive request delivers that payload
/// to the request's sink, and the buffer returns to its prior state.
pub proof fn lemma_rendezvous_message_first<S>(
    m: Map<u32, BufItem<S>>,
    rec: u32,
    sender: S,
    payload: Vec<u8>,
)
    requires
        !m.contains_key(rec),
    ensures
        !message_fatal(m, rec),
        ({
            let m1 = slot_after_message(m, rec, payload);
            &&& !request_fatal(m1, rec)
            &&& request_delivery(m1, rec, sender) == Some((sender, payload))
            &&& slot_after_request(m1, rec, sender) =~= m
        }),
{
    let m1 = slot_after_message(m, rec, payload);
    assert(m1 == m.insert(rec, BufItem::Received(payload)));
    assert(m1.remove(rec) =~= m);
}

/// The buffer map of a whole gateway: every channel's slots, with absent
/// channels read as empty buffers.
pub struct GatewayState<S> {
    channels: HashMap<u64, MessageBuffer<S>>,
}

impl<S> GatewayState<S> {
    /// The slots of the given channel.
    pub closed spec fn channel_slots(self, ch: u64) -> Map<u32, BufItem<S>> {
        if self.channels@.contains_key(ch) {
            self.channels@[ch].slots()
        } else {
            Map::empty()
        }
    }

    pub fn new() -> (r: Self)
        ensures
            forall|ch: u64| r.channel_slots(ch) == Map::<u32, BufItem<S>>::empty(),
    {
        GatewayState { channels: HashMap::new() }
    }

    /// Routes a receive request to its channel's buffer; all other
    /// channels are untouched.
    pub fn on_receive_request(&mut self, channel: ChannelId, record_id: u32, sender: S) -> (r:
        Result<Option<(S, Vec<u8>)>, Error>)
        ensures
            ({
                let key = channel.spec_encode();
                let m = old(self).channel_slots(key);
                &&& final(self).channel_slots(key) == slot_after_request(m, record_id, sender)
                &&& request_fatal(m, record_id) ==> r == Err::<Option<(S, Vec<u8>)>, Error>(
                    Error::DuplicateReceive { record_id },
                )
                &&& !request_fatal(m, record_id) ==> r == Ok::<Option<(S, Vec<u8>)>, Error>(
                    request_delivery(m, record_id, sender),
                )
                &&& forall|other: u64|
                    other != key ==> final(self).channel_slots(other) == old(self).channel_slots(
                        other,
                    )
            }),
    {
        let key = channel.encode();
        let mut buffer = match self.channels.remove(&key) {
            Some(b) => b,
            None => MessageBuffer::new(),
        };
        let r = buffer.receive_request(record_id, sender);
        self.channels.insert(key, buffer);
        r
    }

    /// Routes an arriving message to its channel's buffer; all other
    /// channels are untouched.
    pub fn on_message(&mut self, channel: ChannelId, msg: MessageEnvelope) -> (r: Result<
        Option<(S, Vec<u8>)>,
        Error,
    >)
        ensures
            ({
                let key = channel.spec_encode();
                let m = old(self).channel_slots(key);
                &&& final(self).channel_slots(key) == slot_after_message(
                    m,
                    msg.record_id,
                    msg.payload,
                )
                &&& message_fatal(m, msg.record_id) ==> r == Err::<Option<(S, Vec<u8>)>, Error>(
                    Error::DuplicateMessage { record_id: msg.record_id },
                )
                &&& !message_fatal(m, msg.record_id) ==> r == Ok::<Option<(S, Vec<u8>)>, Error>(
                    message_delivery(m, msg.record_id, msg.payload),
                )
                &&& forall|other: u64|
                    other != key ==> final(self).channel_slots(other) == old(self).channel_slots(
                        other,
                    )
            }),
    {
        let key = channel.encode();
        let mut buffer = match self.channels.remove(&key) {
            Some(b) => b,
            None => MessageBuffer::new(),
        };
        let r = buffer.receive_message(msg);
        self.channels.insert(key, buffer);
        r
    }
}

} // verus!
