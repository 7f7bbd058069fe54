use ipa_core::error::Error;
use ipa_core::gateway::{ChannelId, GatewayState, MessageBuffer, MessageEnvelope};
use ipa_core::role::Role;

fn envelope(record_id: u32, payload: &[u8]) -> MessageEnvelope {
    MessageEnvelope { record_id, payload: payload.to_vec() }
}

#[test]
fn rendezvous_request_first() {
    let mut buf: MessageBuffer<u64> = MessageBuffer::new();
    assert_eq!(buf.receive_request(4, 71).unwrap(), None);
    let (sink, payload) = buf.receive_message(envelope(4, b"hello")).unwrap().unwrap();
    assert_eq!(sink, 71);
    assert_eq!(payload, b"hello".to_vec());
    // at quiescence the buffer is empty
    assert!(buf.is_empty());
}

#[test]
fn rendezvous_message_first() {
    let mut buf: MessageBuffer<u64> = MessageBuffer::new();
    assert_eq!(buf.receive_message(envelope(9, b"early")).unwrap(), None);
    let (sink, payload) = buf.receive_request(9, 5).unwrap().unwrap();
    assert_eq!(sink, 5);
    assert_eq!(payload, b"early".to_vec());
    assert!(buf.is_empty());
}

#[test]
fn duplicate_receive_is_fatal() {
    let mut buf: MessageBuffer<u64> = MessageBuffer::new();
    assert_eq!(buf.receive_request(7, 1).unwrap(), None);
    assert_eq!(
        buf.receive_request(7, 2),
        Err(Error::DuplicateReceive { record_id: 7 })
    );
}

#[test]
fn duplicate_message_is_fatal() {
    let mut buf: MessageBuffer<u64> = MessageBuffer::new();
    assert_eq!(buf.receive_message(envelope(3, b"a")).unwrap(), None);
    assert_eq!(
        buf.receive_message(envelope(3, b"b")),
        Err(Error::DuplicateMessage { record_id: 3 })
    );
}

#[test]
fn records_are_independent() {
    let mut buf: MessageBuffer<u64> = MessageBuffer::new();
    assert_eq!(buf.receive_message(envelope(0, b"zero")).unwrap(), None);
    assert_eq!(buf.receive_message(envelope(1, b"one")).unwrap(), None);
    let (_, payload) = buf.receive_request(1, 11).unwrap().unwrap();
    assert_eq!(payload, b"one".to_vec());
    let (_, payload) = buf.receive_request(0, 12).unwrap().unwrap();
    assert_eq!(payload, b"zero".to_vec());
    assert!(buf.is_empty());
}

#[test]
fn gateway_ordering_scenario() {
    // two sends on the same channel with record ids 0 and 1, and a single
    // receive for record 1 submitted before any message arrives
    let mut gw: GatewayState<u64> = GatewayState::new();
    let ch = ChannelId { peer: Role::H2, step_id: 42 };
    assert_eq!(gw.on_receive_request(ch, 1, 100).unwrap(), None);
    assert_eq!(gw.on_message(ch, envelope(0, b"record-zero")).unwrap(), None);
    let (sink, payload) = gw.on_message(ch, envelope(1, b"record-one")).unwrap().unwrap();
    assert_eq!(sink, 100);
    assert_eq!(payload, b"record-one".to_vec());
    // the record-0 payload stays buffered until its receive is issued
    let (sink, payload) = gw.on_receive_request(ch, 0, 200).unwrap().unwrap();
    assert_eq!(sink, 200);
    assert_eq!(payload, b"record-zero".to_vec());
}

#[test]
fn gateway_channels_are_independent() {
    let mut gw: GatewayState<u64> = GatewayState::new();
    let ch1 = ChannelId { peer: Role::H2, step_id: 1 };
    let ch2 = ChannelId { peer: Role::H3, step_id: 1 };
    let ch3 = ChannelId { peer: Role::H2, step_id: 2 };
    assert_eq!(gw.on_message(ch1, envelope(0, b"one")).unwrap(), None);
    assert_eq!(gw.on_message(ch2, envelope(0, b"two")).unwrap(), None);
    assert_eq!(gw.on_message(ch3, envelope(0, b"three")).unwrap(), None);
    let (_, payload) = gw.on_receive_request(ch2, 0, 9).unwrap().unwrap();
    assert_eq!(payload, b"two".to_vec());
    let (_, payload) = gw.on_receive_request(ch1, 0, 9).unwrap().unwrap();
    assert_eq!(payload, b"one".to_vec());
    let (_, payload) = gw.on_receive_request(ch3, 0, 9).unwrap().unwrap();
    assert_eq!(payload, b"three".to_vec());
}

#[test]
fn channel_keys_do_not_collide() {
    let a = ChannelId { peer: Role::H1, step_id: 0xffff };
    let b = ChannelId { peer: Role::H2, step_id: 0 };
    assert_ne!(a.encode(), b.encode());
    assert_eq!(a.encode(), 0xffff);
    assert_eq!(b.encode(), 0x10000);
}
