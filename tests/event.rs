use kumoko::event::{DisconnectEvent, Event, Origin};
use kumoko::server::{IdSource, Target};
use kumoko::{client, server};
use std::io;

#[test]
fn an_origin_replies_to_its_connection() {
    assert_eq!(Origin::Id(4).target(), Target::One(4));
}

#[test]
fn only_message_events_carry_a_message() {
    assert_eq!(Event::Message(3i32).into_message(), Some(3));
    assert_eq!(Event::<i32>::Connect.into_message(), None);
    assert_eq!(Event::<i32>::clean().into_message(), None);
}

#[test]
fn only_a_disconnect_from_a_connection_evicts_it() {
    assert_eq!(Event::<i32>::clean().evicts(Origin::Id(2)), Some(2));
    assert_eq!(Event::<i32>::dirty().evicts(Origin::Id(3)), Some(3));
    assert_eq!(Event::<i32>::dirty().evicts(Origin::OnClient), None);
    assert_eq!(Event::<i32>::Connect.evicts(Origin::Id(2)), None);
    assert_eq!(Event::Message(1i32).evicts(Origin::Id(2)), None);
    let err = io::Error::new(io::ErrorKind::Other, "x");
    assert_eq!(Event::<i32>::from_err(err).evicts(Origin::Id(2)), None);
}

#[test]
fn disconnect_constructors() {
    assert!(matches!(Event::<i32>::clean(), Event::Disconnect(DisconnectEvent::Clean)));
    assert!(matches!(Event::<i32>::dirty(), Event::Disconnect(DisconnectEvent::Dirty)));
}

#[test]
fn ids_start_at_zero_and_increase() {
    let mut ids = IdSource::new();
    assert_eq!(ids.mint(), Some(0));
    assert_eq!(ids.mint(), Some(1));
    assert_eq!(ids.mint(), Some(2));
}

#[test]
fn default_configs() {
    let s = server::Config::default();
    assert_eq!(s.timeout, None);
    assert_eq!(s.client_buffer, 3);
    assert_eq!(s.receiver_buffer, 32);
    assert_eq!(s.pool_buffer, 32);
    let c = client::Config::default();
    assert_eq!(c.timeout, None);
    assert_eq!(c.emitter_buffer, 3);
    assert_eq!(c.collector_buffer, 3);
}

#[test]
fn ids_convert_to_origins_and_targets() {
    assert_eq!(Origin::from(5usize), Origin::Id(5));
    assert_eq!(Target::from(5usize), Target::One(5));
}

#[test]
fn events_can_be_cloned() {
    let err = io::Error::new(io::ErrorKind::Other, "x");
    let event = Event::<i32>::from_err(err);
    match event.clone() {
        Event::RealError(e) => assert_eq!(e.kind(), io::ErrorKind::Other),
        other => panic!("{:?}", other),
    }
}
