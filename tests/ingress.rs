use kumoko::codec::Message;
use kumoko::event::{DisconnectEvent, Event};
use kumoko::ingress::{Ingress, ReadOutcome, READ_CHUNK};
use std::io;

fn feed(ingress: &mut Ingress, bytes: &[u8]) -> Vec<Event<i32>> {
    ingress.on_input(ReadOutcome::Data(bytes.to_vec()))
}

fn messages(events: &[Event<i32>]) -> Vec<i32> {
    events
        .iter()
        .map(|e| match e {
            Event::Message(v) => *v,
            other => panic!("not a message: {:?}", other),
        })
        .collect()
}

fn burst(values: &[i32]) -> Vec<u8> {
    values.iter().flat_map(|v| v.encode()).collect()
}

#[test]
fn a_burst_in_one_read_gives_every_message_in_order() {
    let values = [1, 300, -5, i32::MAX, 0, 70000];
    let mut ingress = Ingress::new();
    let events = feed(&mut ingress, &burst(&values));
    assert_eq!(messages(&events), values.to_vec());
}

#[test]
fn a_burst_split_anywhere_gives_the_same_messages() {
    let values = [1, 300, -5, i32::MAX, 0, 70000, -70000];
    let bytes = burst(&values);
    for size in 1..=bytes.len() {
        let mut ingress = Ingress::new();
        let mut got = Vec::new();
        for chunk in bytes.chunks(size) {
            got.extend(messages(&feed(&mut ingress, chunk)));
        }
        assert_eq!(got, values.to_vec(), "chunks of {}", size);
    }
}

#[test]
fn a_frame_split_in_two_reads_is_reported_once() {
    let bytes = 300i32.encode();
    let mut ingress = Ingress::new();
    assert!(feed(&mut ingress, &bytes[..1]).is_empty());
    let events = feed(&mut ingress, &bytes[1..]);
    assert_eq!(messages(&events), vec![300]);
}

#[test]
fn undecodable_bytes_are_reported_and_dropped() {
    let mut ingress = Ingress::new();
    let wide = i64::MAX.encode();
    let events = feed(&mut ingress, &wide);
    assert_eq!(events.len(), 1);
    match &events[0] {
        Event::IllegalData(il) => assert_eq!(il.vec, wide),
        other => panic!("{:?}", other),
    }
    let events = feed(&mut ingress, &burst(&[11111, 22222, 33333]));
    assert_eq!(messages(&events), vec![11111, 22222, 33333]);
}

#[test]
fn frames_before_bad_bytes_are_still_reported() {
    let mut bytes = 11111i32.encode();
    bytes.push(255);
    bytes.extend(22222i32.encode());
    let mut ingress = Ingress::new();
    let events = feed(&mut ingress, &bytes);
    assert_eq!(events.len(), 2);
    assert!(matches!(events[0], Event::Message(11111)));
    match &events[1] {
        Event::IllegalData(il) => assert_eq!(il.vec, bytes[3..].to_vec()),
        other => panic!("{:?}", other),
    }
}

#[test]
fn reading_nothing_is_a_clean_close() {
    let mut ingress = Ingress::new();
    let events = feed(&mut ingress, &[]);
    assert!(matches!(events[..], [Event::Disconnect(DisconnectEvent::Clean)]));
    assert!(!ingress.is_live());
    assert!(feed(&mut ingress, &15i32.encode()).is_empty());
}

#[test]
fn a_reset_is_a_dirty_close() {
    let mut ingress = Ingress::new();
    let events: Vec<Event<i32>> = ingress.on_input(ReadOutcome::Reset);
    assert!(matches!(events[..], [Event::Disconnect(DisconnectEvent::Dirty)]));
    assert!(!ingress.is_live());
}

#[test]
fn other_read_errors_are_reported_and_reading_goes_on() {
    let mut ingress = Ingress::new();
    let err = io::Error::new(io::ErrorKind::Other, "boom");
    let events: Vec<Event<i32>> = ingress.on_input(ReadOutcome::Failed(err));
    assert!(matches!(events[..], [Event::RealError(_)]));
    assert!(ingress.is_live());
    assert_eq!(messages(&feed(&mut ingress, &15i32.encode())), vec![15]);
}

#[test]
fn would_block_changes_nothing() {
    let mut ingress = Ingress::new();
    assert!(feed(&mut ingress, &[251]).is_empty());
    let events: Vec<Event<i32>> = ingress.on_input(ReadOutcome::WouldBlock);
    assert!(events.is_empty());
    assert_eq!(messages(&feed(&mut ingress, &[0x58, 0x02])), vec![300]);
}

#[test]
fn an_idle_timeout_ends_the_connection_silently() {
    let mut ingress = Ingress::new();
    let events: Vec<Event<i32>> = ingress.on_input(ReadOutcome::TimedOut);
    assert!(events.is_empty());
    assert!(!ingress.is_live());
    assert!(feed(&mut ingress, &15i32.encode()).is_empty());
    let events: Vec<Event<i32>> = ingress.on_input(ReadOutcome::Reset);
    assert!(events.is_empty());
}

#[test]
fn a_closed_event_channel_ends_the_connection_silently() {
    let mut ingress = Ingress::new();
    let events: Vec<Event<i32>> = ingress.on_input(ReadOutcome::ChannelClosed);
    assert!(events.is_empty());
    assert!(!ingress.is_live());
}

#[test]
fn reads_take_at_most_one_chunk() {
    let mut ingress = Ingress::new();
    assert_eq!(ingress.read_limit(), READ_CHUNK);
    feed(&mut ingress, &[252, 1]);
    assert_eq!(ingress.read_limit(), READ_CHUNK);
}
